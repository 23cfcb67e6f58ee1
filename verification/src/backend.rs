//! The unified credential model: a backend-agnostic entry shape, the
//! field-resolution rules over it, the polymorphic backend contract, and
//! the selector that maps a store-location string to a backend variant.

pub mod bitwarden;
pub mod keepass;
pub mod keychain;

use vstd::prelude::*;
use crate::matching::{ascii_eq_ic, eq_ignore_ascii_case, lower_code, str_eq};

verus! {

/// The mathematical shape of a unified entry: every string replaced by
/// its character sequence.
pub ghost struct SpecEntry {
    pub title: Seq<char>,
    pub username: Option<Seq<char>>,
    pub password: Option<Seq<char>>,
    pub url: Option<Seq<char>>,
    pub notes: Option<Seq<char>>,
    pub custom_fields: Seq<(Seq<char>, Seq<char>)>,
    pub path: Seq<char>,
}

/// The view of an optional string.
pub open spec fn opt_view(o: Option<String>) -> Option<Seq<char>> {
    match o {
        Some(s) => Some(s@),
        None => None,
    }
}

/// One credential record, normalized across all store variants. The
/// path always begins with `/` and names the entry's location inside
/// its store at the time of the query.
#[derive(Debug)]
pub struct Entry {
    pub title: String,
    pub username: Option<String>,
    pub password: Option<String>,
    pub url: Option<String>,
    pub notes: Option<String>,
    pub custom_fields: Vec<(String, String)>,
    pub path: String,
}

impl View for Entry {
    type V = SpecEntry;

    open spec fn view(&self) -> SpecEntry {
        SpecEntry {
            title: self.title@,
            username: opt_view(self.username),
            password: opt_view(self.password),
            url: opt_view(self.url),
            notes: opt_view(self.notes),
            custom_fields: Seq::new(
                self.custom_fields@.len(),
                |i: int| (self.custom_fields@[i].0@, self.custom_fields@[i].1@),
            ),
            path: self.path@,
        }
    }
}

/// Exact-key lookup in the custom-field mapping: the value of the first
/// pair whose key equals the name character for character.
pub open spec fn spec_custom_lookup(
    fields: Seq<(Seq<char>, Seq<char>)>,
    name: Seq<char>,
) -> Option<Seq<char>>
    decreases fields.len(),
{
    if fields.len() == 0 {
        None
    } else if fields[0].0 == name {
        Some(fields[0].1)
    } else {
        spec_custom_lookup(fields.drop_first(), name)
    }
}

/// Whether a field name denotes one of the five reserved attributes,
/// compared without regard to ASCII case.
pub open spec fn is_reserved_name(name: Seq<char>) -> bool {
    ||| ascii_eq_ic(name, "title"@)
    ||| ascii_eq_ic(name, "username"@)
    ||| ascii_eq_ic(name, "password"@)
    ||| ascii_eq_ic(name, "url"@)
    ||| ascii_eq_ic(name, "notes"@)
}

/// Field resolution: a reserved name selects the corresponding
/// attribute; any other name is looked up, case sensitively, among the
/// custom fields.
pub open spec fn spec_get_field(e: SpecEntry, name: Seq<char>) -> Option<Seq<char>> {
    if ascii_eq_ic(name, "title"@) {
        Some(e.title)
    } else if ascii_eq_ic(name, "username"@) {
        e.username
    } else if ascii_eq_ic(name, "password"@) {
        e.password
    } else if ascii_eq_ic(name, "url"@) {
        e.url
    } else if ascii_eq_ic(name, "notes"@) {
        e.notes
    } else {
        spec_custom_lookup(e.custom_fields, name)
    }
}

pub(crate) proof fn lemma_custom_lookup_skip(fields: Seq<(Seq<char>, Seq<char>)>, name: Seq<char>, i: int)
    requires
        0 <= i <= fields.len(),
        forall|j: int| 0 <= j < i ==> fields[j].0 != name,
    ensures
        spec_custom_lookup(fields, name) == spec_custom_lookup(fields.skip(i), name),
    decreases i,
{
    if i > 0 {
        lemma_custom_lookup_skip(fields.drop_first(), name, i - 1);
        assert(fields.drop_first().skip(i - 1) =~= fields.skip(i));
    } else {
        assert(fields.skip(0) =~= fields);
    }
}

impl Entry {
    /// A fresh entry with a title and a path and nothing else set.
    pub fn new(title: String, path: String) -> (e: Entry)
        ensures
            e@ == (SpecEntry {
                title: title@,
                username: None,
                password: None,
                url: None,
                notes: None,
                custom_fields: Seq::<(Seq<char>, Seq<char>)>::empty(),
                path: path@,
            }),
    {
        let e = Entry {
            title,
            username: None,
            password: None,
            url: None,
            notes: None,
            custom_fields: Vec::new(),
            path,
        };
        proof {
            assert(e@.custom_fields =~= Seq::<(Seq<char>, Seq<char>)>::empty());
        }
        e
    }

    /// Look a field up by name: reserved names case-insensitively, any
    /// other name verbatim among the custom fields. An absent value is
    /// `None`, not an error.
    pub fn get_field(&self, field_name: &str) -> (r: Option<String>)
        ensures
            opt_view(r) == spec_get_field(self@, field_name@),
    {
        if eq_ignore_ascii_case(field_name, "title") {
            Some(self.title.clone())
        } else if eq_ignore_ascii_case(field_name, "username") {
            match &self.username {
                Some(s) => Some(s.clone()),
                None => None,
            }
        } else if eq_ignore_ascii_case(field_name, "password") {
            match &self.password {
                Some(s) => Some(s.clone()),
                None => None,
            }
        } else if eq_ignore_ascii_case(field_name, "url") {
            match &self.url {
                Some(s) => Some(s.clone()),
                None => None,
            }
        } else if eq_ignore_ascii_case(field_name, "notes") {
            match &self.notes {
                Some(s) => Some(s.clone()),
                None => None,
            }
        } else {
            let ghost fields = self@.custom_fields;
            let mut i: usize = 0;
            #[verifier::loop_isolation(false)]
            while i < self.custom_fields.len()
                invariant
                    i <= self.custom_fields.len(),
                    fields == self@.custom_fields,
                    fields.len() == self.custom_fields.len(),
                    forall|j: int| 0 <= j < i ==> fields[j].0 != field_name@,
                decreases self.custom_fields.len() - i,
            {
                if str_eq(self.custom_fields[i].0.as_str(), field_name) {
                    proof {
                        lemma_custom_lookup_skip(fields, field_name@, i as int);
                        assert(fields.skip(i as int)[0] == fields[i as int]);
                        assert(spec_custom_lookup(fields.skip(i as int), field_name@)
                            == Some(fields[i as int].1));
                    }
                    return Some(self.custom_fields[i].1.clone());
                }
                i += 1;
            }
            proof {
                lemma_custom_lookup_skip(fields, field_name@, fields.len() as int);
                assert(fields.skip(fields.len() as int) =~= Seq::<(Seq<char>, Seq<char>)>::empty());
            }
            None
        }
    }
}

/// Reserved-field lookup ignores ASCII case: if two names agree up to
/// ASCII case and one of them is reserved, field resolution yields the
/// same result for both on every entry.
pub proof fn lemma_reserved_field_case_insensitive(e: SpecEntry, n1: Seq<char>, n2: Seq<char>)
    requires
        ascii_eq_ic(n1, n2),
        is_reserved_name(n1),
    ensures
        spec_get_field(e, n1) == spec_get_field(e, n2),
{
    crate::matching::lemma_ascii_eq_ic_trans(n1, n2, "title"@);
    crate::matching::lemma_ascii_eq_ic_trans(n1, n2, "username"@);
    crate::matching::lemma_ascii_eq_ic_trans(n1, n2, "password"@);
    crate::matching::lemma_ascii_eq_ic_trans(n1, n2, "url"@);
    crate::matching::lemma_ascii_eq_ic_trans(n1, n2, "notes"@);
}

/// Search options for querying backends.
#[derive(Debug, Clone, Copy)]
pub struct SearchOptions {
    pub case_sensitive: bool,
    pub exact_match: bool,
}

/// A failure at the backend contract's boundary: a named field with no
/// value on the entry at hand, or a store-side failure reported by the
/// store implementation.
#[derive(Debug)]
pub enum StoreError {
    FieldNotFound,
    Store(String),
}

/// The polymorphic contract every store variant satisfies: a search
/// that may return zero, one or many entries, and a field accessor
/// that turns an absent value into an explicit failure.
pub trait Backend {
    /// Search for entries whose title matches the query under the
    /// given options. An empty result is a successful result.
    fn search(&self, query: &str, options: &SearchOptions) -> Result<Vec<Entry>, StoreError>;

    /// Extract one named field from an entry, failing when the field
    /// has no value on this entry.
    fn get_field(&self, entry: &Entry, field_name: &str) -> (r: Result<String, StoreError>)
        ensures
            match r {
                Ok(v) => spec_get_field(entry@, field_name@) == Some(v@),
                Err(e) => spec_get_field(entry@, field_name@) is None && e is FieldNotFound,
            },
    ;
}

/// The caller-side disambiguation outcome: zero results and several
/// results are both failures, and the ambiguous case carries every
/// candidate's path so the operator can refine the query.
#[derive(Debug)]
pub enum QueryError {
    NoItemsFound,
    AmbiguousMatch(Vec<String>),
}

/// The paths of a sequence of entries.
pub open spec fn path_views(s: Seq<Entry>) -> Seq<Seq<char>> {
    s.map_values(|e: Entry| e.path@)
}

/// Disambiguate a search-result set: no result is a failure, several
/// results are a failure listing every candidate path, and exactly one
/// result is handed on.
pub fn select_single(results: Vec<Entry>) -> (r: Result<Entry, QueryError>)
    ensures
        results@.len() == 0 ==> (r matches Err(e) && e is NoItemsFound),
        results@.len() == 1 ==> (r matches Ok(e) && e == results@[0]),
        results@.len() > 1 ==> (r matches Err(e) && e matches QueryError::AmbiguousMatch(paths)
            && paths.deep_view() == path_views(results@)),
{
    if results.len() == 0 {
        return Err(QueryError::NoItemsFound);
    }
    if results.len() == 1 {
        let mut v = results;
        let e = v.remove(0);
        return Ok(e);
    }
    let mut paths: Vec<String> = Vec::new();
    let mut i: usize = 0;
    #[verifier::loop_isolation(false)]
    while i < results.len()
        invariant
            i <= results.len(),
            paths@.len() == i,
            forall|j: int| 0 <= j < i ==> paths@[j]@ == results@[j].path@,
        decreases results.len() - i,
    {
        paths.push(results[i].path.clone());
        i += 1;
    }
    proof {
        assert(paths.deep_view() =~= path_views(results@));
    }
    Err(QueryError::AmbiguousMatch(paths))
}

/// Backend variants, a closed set fixed at compile time.
#[derive(Debug, Clone, Copy, PartialEq, Eq, Structural)]
pub enum BackendType {
    KeePass,
    Keychain,
    Bitwarden,
}

/// The variant a store-location string selects: a reserved keyword,
/// compared without regard to ASCII case, names the keychain or the
/// vault CLI; every other string is a path to a tree-structured store.
pub open spec fn spec_backend_type(path: Seq<char>) -> BackendType {
    if ascii_eq_ic(path, "keychain"@) {
        BackendType::Keychain
    } else if ascii_eq_ic(path, "bitwarden"@) {
        BackendType::Bitwarden
    } else {
        BackendType::KeePass
    }
}

impl BackendType {
    /// Detect the backend variant from a store-location string. Total:
    /// unrecognized strings select the tree-structured store.
    pub fn from_path(path: &str) -> (t: BackendType)
        ensures
            t == spec_backend_type(path@),
    {
        if eq_ignore_ascii_case(path, "keychain") {
            BackendType::Keychain
        } else if eq_ignore_ascii_case(path, "bitwarden") {
            BackendType::Bitwarden
        } else {
            BackendType::KeePass
        }
    }
}

} // verus!
