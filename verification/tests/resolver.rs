use kpasscli::search::{Finder, LookupError, SearchOptions};
use kpasscli::tree::{KpDatabase, KpEntry, KpGroup};

fn field(k: &str, v: &str) -> (String, String) {
    (k.to_string(), v.to_string())
}

fn entry(title: &str, password: &str) -> KpEntry {
    KpEntry { fields: vec![field("Title", title), field("Password", password)] }
}

fn sample_db() -> KpDatabase {
    KpDatabase {
        root: KpGroup {
            name: "Root".to_string(),
            entries: vec![entry("Email", "topsecret")],
            children: vec![
                KpGroup {
                    name: "Work".to_string(),
                    entries: vec![entry("github", "w1"), entry("Server", "w2")],
                    children: vec![],
                },
                KpGroup {
                    name: "Personal".to_string(),
                    entries: vec![entry("github", "p1")],
                    children: vec![KpGroup {
                        name: "Deep".to_string(),
                        entries: vec![entry("Nested", "n1")],
                        children: vec![],
                    }],
                },
            ],
        },
    }
}

fn opts(case_sensitive: bool, exact_match: bool) -> SearchOptions {
    SearchOptions { case_sensitive, exact_match }
}

#[test]
fn absolute_path_finds_entry() {
    let db = sample_db();
    let finder = Finder::new(&db, opts(false, false));
    let r = finder.find("/Work/github").unwrap();
    assert_eq!(r.len(), 1);
    assert_eq!(r[0].path, "/Work/github");
    assert_eq!(r[0].entry.get_title(), "github");
    assert_eq!(r[0].entry.get("Password").unwrap(), "w1");
}

#[test]
fn absolute_path_skips_root_name() {
    let db = sample_db();
    let finder = Finder::new(&db, opts(false, false));
    let r = finder.find("/Root/Work/Server").unwrap();
    assert_eq!(r.len(), 1);
    assert_eq!(r[0].entry.get_title(), "Server");
}

#[test]
fn absolute_path_is_idempotent() {
    let db = sample_db();
    let finder = Finder::new(&db, opts(false, false));
    let a = finder.find_by_absolute_path("/Personal/Deep/Nested").unwrap();
    let b = finder.find_by_absolute_path("/Personal/Deep/Nested").unwrap();
    assert_eq!(a.len(), 1);
    assert_eq!(b.len(), 1);
    assert_eq!(a[0].path, b[0].path);
    assert_eq!(a[0].entry.fields, b[0].entry.fields);
}

#[test]
fn missing_entry_is_entry_not_found() {
    let db = sample_db();
    let finder = Finder::new(&db, opts(false, false));
    let r = finder.find("/Work/Missing");
    assert!(matches!(r, Err(LookupError::EntryNotFound)));
}

#[test]
fn group_path_is_path_is_group() {
    let db = sample_db();
    let finder = Finder::new(&db, opts(false, false));
    let r = finder.find("/Work");
    assert!(matches!(r, Err(LookupError::PathIsGroup)));
}

#[test]
fn missing_group_is_group_not_found() {
    let db = sample_db();
    let finder = Finder::new(&db, opts(false, false));
    let r = finder.find("/Nowhere/Entry");
    assert!(matches!(r, Err(LookupError::GroupNotFound)));
}

#[test]
fn bare_root_is_not_addressable() {
    let db = sample_db();
    let finder = Finder::new(&db, opts(false, false));
    let r = finder.find("/Root");
    assert!(matches!(r, Err(LookupError::RootNotAddressable)));
}

#[test]
fn fuzzy_search_elides_root_name() {
    let db = sample_db();
    let finder = Finder::new(&db, opts(false, true));
    let r = finder.find("Email").unwrap();
    assert_eq!(r.len(), 1);
    assert_eq!(r[0].path, "/Email");
}

#[test]
fn fuzzy_search_finds_both_github_entries() {
    let db = sample_db();
    let finder = Finder::new(&db, opts(false, true));
    let r = finder.find("github").unwrap();
    assert_eq!(r.len(), 2);
    let paths: Vec<&str> = r.iter().map(|s| s.path.as_str()).collect();
    assert!(paths.contains(&"/Work/github"));
    assert!(paths.contains(&"/Personal/github"));
}

#[test]
fn fuzzy_search_substring_and_case() {
    let db = sample_db();
    let finder = Finder::new(&db, opts(false, false));
    let r = finder.find("SERV").unwrap();
    assert_eq!(r.len(), 1);
    assert_eq!(r[0].path, "/Work/Server");

    let strict = Finder::new(&db, opts(true, false));
    assert_eq!(strict.find("SERV").unwrap().len(), 0);
    assert_eq!(strict.find("Serv").unwrap().len(), 1);
}

#[test]
fn fuzzy_results_resolve_back_to_same_title() {
    let db = sample_db();
    let finder = Finder::new(&db, opts(false, false));
    let results = finder.find("e").unwrap();
    assert!(results.len() >= 3);
    for hit in &results {
        let back = finder.find_by_absolute_path(&hit.path).unwrap();
        assert_eq!(back.len(), 1);
        assert_eq!(back[0].entry.get_title(), hit.entry.get_title());
    }
}

#[test]
fn empty_fuzzy_result_is_ok() {
    let db = sample_db();
    let finder = Finder::new(&db, opts(true, true));
    let r = finder.find("no such thing").unwrap();
    assert_eq!(r.len(), 0);
}

#[test]
fn nested_entry_path_joins_groups() {
    let db = sample_db();
    let finder = Finder::new(&db, opts(false, true));
    let r = finder.find("Nested").unwrap();
    assert_eq!(r.len(), 1);
    assert_eq!(r[0].path, "/Personal/Deep/Nested");
}

#[test]
fn any_root_name_is_elided() {
    let mut db = sample_db();
    db.root.name = "Vault".to_string();
    let finder = Finder::new(&db, opts(false, true));
    let r = finder.find("Email").unwrap();
    assert_eq!(r.len(), 1);
    assert_eq!(r[0].path, "/Email");
    let back = finder.find_by_absolute_path(&r[0].path).unwrap();
    assert_eq!(back[0].entry.get_title(), "Email");
}

#[test]
fn empty_query_matches_every_entry() {
    let db = sample_db();
    let finder = Finder::new(&db, opts(false, false));
    let r = finder.find("").unwrap();
    assert_eq!(r.len(), 5);
}

#[test]
fn empty_string_path_is_rejected() {
    let db = sample_db();
    let finder = Finder::new(&db, opts(false, false));
    let r = finder.find_by_absolute_path("");
    assert!(matches!(r, Err(LookupError::EmptyPath)));
}
