use kpasscli::backend::bitwarden::BitwardenBackend;
use kpasscli::backend::keychain::KeychainBackend;
use kpasscli::backend::SearchOptions;
use kpasscli::otp::{generate_totp, TotpError};

#[test]
fn test_generate_totp_from_url() {
    let url = "otpauth://totp/Example:alice@google.com?secret=JBSWY3DPEHPK3PXPJBSWY3DPEHPK3PXP&issuer=Example";
    let token = generate_totp(url);
    if let Err(e) = &token {
        println!("Error: {:?}", e);
    }
    assert!(token.is_ok());
    let token = token.unwrap();
    assert_eq!(token.len(), 6);
    assert!(token.chars().all(char::is_numeric));
}

#[test]
fn wrong_scheme_is_invalid_configuration() {
    let url = "http://totp/Example?secret=JBSWY3DPEHPK3PXP";
    assert_eq!(generate_totp(url), Err(TotpError::InvalidTotpConfiguration));
}

#[test]
fn wrong_host_is_invalid_configuration() {
    let url = "otpauth://hotp/Example?secret=JBSWY3DPEHPK3PXP";
    assert_eq!(generate_totp(url), Err(TotpError::InvalidTotpConfiguration));
}

#[test]
fn missing_secret_is_invalid_configuration() {
    assert_eq!(
        generate_totp("otpauth://totp/Example?issuer=Example"),
        Err(TotpError::InvalidTotpConfiguration)
    );
    assert_eq!(generate_totp("not a uri at all"), Err(TotpError::InvalidTotpConfiguration));
}

#[test]
fn undecodable_secret_is_invalid_secret() {
    let url = "otpauth://totp/Example?secret=????????";
    assert_eq!(generate_totp(url), Err(TotpError::InvalidSecret));
}

#[test]
fn short_secret_is_invalid_secret() {
    let url = "otpauth://totp/Example?secret=JBSWY3DP";
    assert_eq!(generate_totp(url), Err(TotpError::InvalidSecret));
}

#[test]
fn percent_encoded_secret_is_decoded() {
    let url =
        "otpauth://totp/Example?secret=JBSW%20Y3DP+EHPK%203PXPJBSWY3DPEHPK3PXP%3D%3D&issuer=E";
    let token = generate_totp(url).unwrap();
    assert_eq!(token.len(), 6);
    assert!(token.chars().all(char::is_numeric));
}

#[test]
fn secret_spaces_and_padding_are_stripped() {
    let url = "otpauth://totp/Example?secret=JBSW Y3DP EHPK 3PXP JBSW Y3DP EHPK 3PXP====";
    let token = generate_totp(url).unwrap();
    assert_eq!(token.len(), 6);
    assert!(token.chars().all(char::is_numeric));
}

#[test]
fn keychain_extract_value_reads_quoted_value() {
    let line = "    \"acct\"<blob>=\"alice\"";
    assert_eq!(KeychainBackend::extract_value(line), Some("alice".to_string()));
    assert_eq!(KeychainBackend::extract_value("no equals sign here"), None);
}

#[test]
fn keychain_parse_search_output_builds_entry() {
    let stdout = "keychain: \"login\"\n    \"acct\"<blob>=\"alice\"\n    \"svce\"<blob>=\"mail\"\n";
    let stderr = "password: \"hunter2\"\n";
    let e = KeychainBackend::parse_search_output("mail", stdout, stderr, true).unwrap();
    assert_eq!(e.title, "mail");
    assert_eq!(e.username, Some("alice".to_string()));
    assert_eq!(e.password, Some("hunter2".to_string()));
    assert_eq!(e.path, "/keychain/mail");
}

#[test]
fn keychain_failed_silent_lookup_is_empty() {
    assert!(KeychainBackend::parse_search_output("x", "", "", false).is_none());
}

#[test]
fn keychain_service_names_and_filter() {
    let stdout = "    \"svce\"<blob>=\"mail\"\n    \"acct\"<blob>=\"bob\"\n    \"svce\"<blob>=\"bank\"\n";
    let names = KeychainBackend::parse_service_names(stdout);
    assert_eq!(names, vec!["mail".to_string(), "bank".to_string()]);
    let options = SearchOptions { case_sensitive: false, exact_match: false };
    let kept = KeychainBackend::filter_matching(&names, "AN", &options);
    assert_eq!(kept, vec!["bank".to_string()]);
}

#[test]
fn bitwarden_parse_item_reads_fields() {
    let backend = BitwardenBackend { session: None };
    let json = "{\"name\":\"github\",\"login\":{\"username\":\"alice\",\"password\":\"pw\",\"uris\":[{\"uri\":\"https://github.com\"}]},\"notes\":\"work\"}";
    let e = backend.parse_item(json).unwrap();
    assert_eq!(e.title, "github");
    assert_eq!(e.username, Some("alice".to_string()));
    assert_eq!(e.password, Some("pw".to_string()));
    assert_eq!(e.url, Some("https://github.com".to_string()));
    assert_eq!(e.notes, Some("work".to_string()));
    assert_eq!(e.path, "/bitwarden/github");
}

#[test]
fn bitwarden_parse_search_results_splits_and_filters() {
    let backend = BitwardenBackend { session: None };
    let output = " [{\"name\":\"github\",\"username\":\"a\"},{\"name\":\"gitlab\",\"username\":\"b\"}] ";
    let options = SearchOptions { case_sensitive: false, exact_match: false };
    let hits = backend.parse_search_results(output, "github", &options);
    assert_eq!(hits.len(), 1);
    assert_eq!(hits[0].title, "github");
    assert_eq!(hits[0].path, "/bitwarden/github");

    let all = backend.parse_search_results(output, "git", &options);
    assert_eq!(all.len(), 2);

    let none = backend.parse_search_results("not json", "git", &options);
    assert_eq!(none.len(), 0);

    let empty = backend.parse_search_results("[]", "git", &options);
    assert_eq!(empty.len(), 0);
}

#[test]
fn bitwarden_session_needs_unlocked_status() {
    let unlocked = "{\"status\":\"unlocked\",\"userEmail\":\"a@b.c\"}";
    let locked = "{\"status\":\"locked\"}";
    assert_eq!(
        BitwardenBackend::session_from_status(unlocked, Some("tok".to_string())),
        Some("tok".to_string())
    );
    assert_eq!(BitwardenBackend::session_from_status(locked, Some("tok".to_string())), None);
    assert_eq!(BitwardenBackend::session_from_status(unlocked, None), None);
}
