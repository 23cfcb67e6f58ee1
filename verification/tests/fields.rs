use kpasscli::backend::{
    select_single, Backend, BackendType, Entry, QueryError, SearchOptions,
};
use kpasscli::backend::keepass::KeePassBackend;
use kpasscli::config::Config;
use kpasscli::db_helper::first_password_source;
use kpasscli::matching::match_value;
use kpasscli::output::{resolve_output_type, Handler, OutputType};
use kpasscli::tree::{KpDatabase, KpEntry, KpGroup};

fn sample_entry() -> Entry {
    let mut e = Entry::new("Email".to_string(), "/Email".to_string());
    e.username = Some("alice".to_string());
    e.password = Some("pw".to_string());
    e.custom_fields.push(("Token".to_string(), "abc".to_string()));
    e
}

#[test]
fn reserved_names_are_case_insensitive() {
    let e = sample_entry();
    let a = e.get_field("Title");
    let b = e.get_field("title");
    let c = e.get_field("TITLE");
    assert_eq!(a, b);
    assert_eq!(b, c);
    assert_eq!(a, Some("Email".to_string()));
    assert_eq!(e.get_field("USERNAME"), Some("alice".to_string()));
    assert_eq!(e.get_field("PaSsWoRd"), Some("pw".to_string()));
}

#[test]
fn absent_reserved_field_is_none_not_error() {
    let e = Entry::new("T".to_string(), "/T".to_string());
    assert_eq!(e.get_field("username"), None);
    assert_eq!(e.get_field("notes"), None);
}

#[test]
fn custom_fields_are_case_sensitive() {
    let e = sample_entry();
    assert_eq!(e.get_field("Token"), Some("abc".to_string()));
    assert_eq!(e.get_field("token"), None);
    assert_eq!(e.get_field("missing"), None);
}

#[test]
fn match_policy_quadrants() {
    assert!(match_value("GitHub", "github", false, true));
    assert!(!match_value("GitHub", "github", true, true));
    assert!(match_value("GitHub", "GitHub", true, true));
    assert!(match_value("My GitHub Account", "hub", false, false));
    assert!(match_value("My GitHub Account", "HUB", false, false));
    assert!(!match_value("My GitHub Account", "HUB", true, false));
    assert!(match_value("My GitHub Account", "Hub", true, false));
    assert!(!match_value("GitHub", "lab", false, false));
    assert!(match_value("anything", "", false, false));
}

#[test]
fn selection_empty_is_no_items_found() {
    let r = select_single(Vec::new());
    assert!(matches!(r, Err(QueryError::NoItemsFound)));
}

#[test]
fn selection_single_passes_through() {
    let r = select_single(vec![sample_entry()]).unwrap();
    assert_eq!(r.title, "Email");
}

#[test]
fn selection_many_is_ambiguous_and_lists_paths() {
    let mut a = Entry::new("github".to_string(), "/Work/github".to_string());
    a.password = Some("w1".to_string());
    let b = Entry::new("github".to_string(), "/Personal/github".to_string());
    let r = select_single(vec![a, b]);
    match r {
        Err(QueryError::AmbiguousMatch(paths)) => {
            assert_eq!(paths, vec!["/Work/github".to_string(), "/Personal/github".to_string()]);
        }
        _ => panic!("expected an ambiguous match listing both paths"),
    }
}

#[test]
fn backend_type_from_path() {
    assert_eq!(BackendType::from_path("keychain"), BackendType::Keychain);
    assert_eq!(BackendType::from_path("KeyChain"), BackendType::Keychain);
    assert_eq!(BackendType::from_path("BITWARDEN"), BackendType::Bitwarden);
    assert_eq!(BackendType::from_path("/home/user/db.kdbx"), BackendType::KeePass);
    assert_eq!(BackendType::from_path(""), BackendType::KeePass);
}

#[test]
fn output_type_from_str() {
    assert_eq!(OutputType::from_str("stdout"), Some(OutputType::Stdout));
    assert_eq!(OutputType::from_str("Clipboard"), Some(OutputType::Clipboard));
    assert_eq!(OutputType::from_str("printer"), None);
}

#[test]
fn output_resolution_precedence() {
    let mut cfg = Config::default();
    cfg.default_output = Some("clipboard".to_string());
    assert_eq!(
        resolve_output_type(Some("stdout".to_string()), true, None, &cfg),
        OutputType::Stdout
    );
    assert_eq!(resolve_output_type(None, true, None, &cfg), OutputType::Clipboard);
    assert_eq!(
        resolve_output_type(None, false, Some("stdout".to_string()), &cfg),
        OutputType::Stdout
    );
    assert_eq!(resolve_output_type(None, false, None, &cfg), OutputType::Clipboard);
    cfg.default_output = None;
    assert_eq!(resolve_output_type(None, false, None, &cfg), OutputType::Stdout);
    assert_eq!(
        resolve_output_type(Some("bogus".to_string()), false, None, &cfg),
        OutputType::Stdout
    );
}

#[test]
fn handler_keeps_its_configuration() {
    let h = Handler::new(OutputType::Clipboard, Some(15));
    assert!(matches!(h.output_type, OutputType::Clipboard));
    assert_eq!(h.clipboard_timeout, Some(15));
}

#[test]
fn password_source_order() {
    let mut cfg = Config::default();
    cfg.password_file = Some("file".to_string());
    cfg.password_executable = Some("exec".to_string());
    assert_eq!(
        first_password_source(Some("param".to_string()), &cfg, Some("env".to_string())),
        Some("param".to_string())
    );
    assert_eq!(
        first_password_source(None, &cfg, Some("env".to_string())),
        Some("env".to_string())
    );
    assert_eq!(first_password_source(None, &cfg, None), Some("file".to_string()));
    cfg.password_file = None;
    assert_eq!(first_password_source(None, &cfg, None), Some("exec".to_string()));
    cfg.password_executable = None;
    assert_eq!(first_password_source(None, &cfg, None), None);
}

#[test]
fn keepass_backend_converts_records() {
    let db = KpDatabase {
        root: KpGroup {
            name: "Root".to_string(),
            entries: vec![KpEntry {
                fields: vec![
                    ("Title".to_string(), "Email".to_string()),
                    ("UserName".to_string(), "alice".to_string()),
                    ("Password".to_string(), "pw".to_string()),
                    ("URL".to_string(), "https://mail.example".to_string()),
                    ("Notes".to_string(), "personal".to_string()),
                    ("Token".to_string(), "abc".to_string()),
                ],
            }],
            children: vec![],
        },
    };
    let backend = KeePassBackend::new(db);
    let options = SearchOptions { case_sensitive: false, exact_match: true };
    let results = backend.search("email", &options).unwrap();
    assert_eq!(results.len(), 1);
    let e = &results[0];
    assert_eq!(e.title, "Email");
    assert_eq!(e.username, Some("alice".to_string()));
    assert_eq!(e.password, Some("pw".to_string()));
    assert_eq!(e.url, Some("https://mail.example".to_string()));
    assert_eq!(e.notes, Some("personal".to_string()));
    assert_eq!(e.custom_fields, vec![("Token".to_string(), "abc".to_string())]);
    assert_eq!(e.path, "/Email");
    assert!(matches!(
        backend.get_field(e, "token"),
        Err(kpasscli::backend::StoreError::FieldNotFound)
    ));
}

#[test]
fn keepass_get_field_reads_reserved_and_custom() {
    let db = KpDatabase {
        root: KpGroup { name: "Root".to_string(), entries: vec![], children: vec![] },
    };
    let backend = KeePassBackend::new(db);
    let mut e = Entry::new("T".to_string(), "/T".to_string());
    e.custom_fields.push(("otp".to_string(), "otpauth://totp/x?secret=ABC".to_string()));
    assert_eq!(backend.get_field(&e, "otp").unwrap(), "otpauth://totp/x?secret=ABC");
    assert_eq!(backend.get_field(&e, "TITLE").unwrap(), "T");
    assert!(backend.get_field(&e, "password").is_err());
}
