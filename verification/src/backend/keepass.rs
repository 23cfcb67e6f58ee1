//! The tree-structured store variant: it owns an opened credential
//! tree, converts the tree's records into unified entries, and searches
//! the tree depth first. Opening and decrypting the store file is the
//! caller's affair; this backend works on the already-decoded tree.

use vstd::prelude::*;
use crate::backend::{Backend, Entry, SearchOptions, SpecEntry, StoreError, spec_custom_lookup};
use crate::matching::{match_value, spec_matches, str_eq};
use crate::tree::{
    collect_matches, group_matches, kp_fields_view, kp_lookup, kp_title, KpDatabase, KpEntry,
    KpGroup,
};

verus! {

/// A record key reserved for one of the five standard attributes.
pub open spec fn is_standard_key(k: Seq<char>) -> bool {
    ||| k == "Title"@
    ||| k == "UserName"@
    ||| k == "Password"@
    ||| k == "URL"@
    ||| k == "Notes"@
}

/// The fields of a record that are not standard attributes, in order.
pub open spec fn non_standard_fields(fs: Seq<(Seq<char>, Seq<char>)>) -> Seq<(Seq<char>, Seq<char>)>
    decreases fs.len(),
{
    if fs.len() == 0 {
        Seq::empty()
    } else {
        let rest = non_standard_fields(fs.drop_first());
        if is_standard_key(fs[0].0) {
            rest
        } else {
            seq![fs[0]] + rest
        }
    }
}

/// The unified entry a record converts to: the five standard attributes
/// pulled out under their conventional keys, every other field kept as
/// a custom field, and the reported path attached.
pub open spec fn spec_convert_fields(fs: Seq<(Seq<char>, Seq<char>)>, path: Seq<char>) -> SpecEntry {
    SpecEntry {
        title: match spec_custom_lookup(fs, "Title"@) {
            Some(t) => t,
            None => Seq::empty(),
        },
        username: spec_custom_lookup(fs, "UserName"@),
        password: spec_custom_lookup(fs, "Password"@),
        url: spec_custom_lookup(fs, "URL"@),
        notes: spec_custom_lookup(fs, "Notes"@),
        custom_fields: non_standard_fields(fs),
        path: path,
    }
}

/// The conversion of a whole record.
pub open spec fn spec_convert(e: KpEntry, path: Seq<char>) -> SpecEntry {
    spec_convert_fields(kp_fields_view(e), path)
}

/// The views of a sequence of unified entries.
pub open spec fn entry_views(s: Seq<Entry>) -> Seq<SpecEntry> {
    s.map_values(|e: Entry| e@)
}

/// The entries that a sequence of matches converts to.
pub open spec fn converted_matches(ms: Seq<(Seq<char>, Seq<(Seq<char>, Seq<char>)>)>) -> Seq<SpecEntry> {
    ms.map_values(|m: (Seq<char>, Seq<(Seq<char>, Seq<char>)>)| spec_convert_fields(m.1, m.0))
}

/// The tree-structured store backend: one opened credential tree.
pub struct KeePassBackend {
    pub db: KpDatabase,
}

impl KeePassBackend {
    /// A backend over an already-opened credential tree.
    pub fn new(db: KpDatabase) -> (b: KeePassBackend)
        ensures
            b.db == db,
    {
        KeePassBackend { db }
    }

    /// Convert a record of the tree to a unified entry carrying the
    /// given reported path.
    pub fn convert_entry(&self, entry: &KpEntry, path: String) -> (r: Entry)
        ensures
            r@ == spec_convert(*entry, path@),
    {
        let ghost p = path@;
        let mut unified = Entry::new(entry.get_title(), path);
        unified.username = entry.get("UserName");
        unified.password = entry.get("Password");
        unified.url = entry.get("URL");
        unified.notes = entry.get("Notes");

        let ghost fields = kp_fields_view(*entry);
        proof {
            assert(fields.skip(0) =~= fields);
            assert(unified@.custom_fields =~= Seq::<(Seq<char>, Seq<char>)>::empty());
        }
        let mut i: usize = 0;
        #[verifier::loop_isolation(false)]
        while i < entry.fields.len()
            invariant
                i <= entry.fields.len(),
                unified.title@ == kp_title(*entry),
                crate::backend::opt_view(unified.username) == kp_lookup(*entry, "UserName"@),
                crate::backend::opt_view(unified.password) == kp_lookup(*entry, "Password"@),
                crate::backend::opt_view(unified.url) == kp_lookup(*entry, "URL"@),
                crate::backend::opt_view(unified.notes) == kp_lookup(*entry, "Notes"@),
                unified@.path == p,
                non_standard_fields(fields) =~= unified@.custom_fields
                    + non_standard_fields(fields.skip(i as int)),
            decreases entry.fields.len() - i,
        {
            proof {
                assert(fields.skip(i as int)[0] == fields[i as int]);
                assert(fields.skip(i as int).drop_first() =~= fields.skip(i as int + 1));
            }
            let key = &entry.fields[i].0;
            let standard = str_eq(key.as_str(), "Title") || str_eq(key.as_str(), "UserName")
                || str_eq(key.as_str(), "Password") || str_eq(key.as_str(), "URL")
                || str_eq(key.as_str(), "Notes");
            if !standard {
                let ghost before = unified@.custom_fields;
                unified.custom_fields.push((entry.fields[i].0.clone(), entry.fields[i].1.clone()));
                proof {
                    assert(unified@.custom_fields =~= before + seq![fields[i as int]]);
                }
            }
            i += 1;
        }
        proof {
            assert(fields.skip(fields.len() as int) =~= Seq::<(Seq<char>, Seq<char>)>::empty());
            assert(unified@.custom_fields =~= non_standard_fields(fields));
        }
        unified
    }

    /// Depth-first search of a subtree: convert every matching record
    /// and append it to the results. `current_path` is the group's own
    /// display path — empty for the store's root, whose name is elided.
    pub fn search_recursive(
        &self,
        group: &KpGroup,
        current_path: &str,
        query: &str,
        options: &SearchOptions,
        results: &mut Vec<Entry>,
    )
        ensures
            entry_views(final(results)@) == entry_views(old(results)@)
                + converted_matches(group_matches(*group, current_path@, query@, options.case_sensitive, options.exact_match)),
    {
        let mut collected: Vec<(String, KpEntry)> = Vec::new();
        collect_matches(group, current_path, query, options.case_sensitive, options.exact_match, &mut collected);
        proof {
            assert(crate::tree::match_views(Seq::<(String, KpEntry)>::empty())
                =~= Seq::<(Seq<char>, Seq<(Seq<char>, Seq<char>)>)>::empty());
        }
        let ghost total = crate::tree::match_views(collected@);
        let ghost at_start = results@;
        #[verifier::loop_isolation(false)]
        while collected.len() > 0
            invariant
                entry_views(results@) + converted_matches(crate::tree::match_views(collected@))
                    =~= entry_views(at_start) + converted_matches(total),
            decreases collected.len(),
        {
            let ghost before = collected@;
            let ghost rbefore = results@;
            let (p, e) = collected.remove(0);
            let converted = self.convert_entry(&e, p);
            results.push(converted);
            proof {
                assert(before.drop_first() =~= collected@);
                assert(crate::tree::match_views(before)
                    =~= seq![(before[0].0@, kp_fields_view(before[0].1))] + crate::tree::match_views(collected@));
                assert(converted_matches(crate::tree::match_views(before))
                    =~= seq![spec_convert_fields(kp_fields_view(before[0].1), before[0].0@)]
                        + converted_matches(crate::tree::match_views(collected@)));
                assert(entry_views(results@) =~= entry_views(rbefore) + seq![converted@]);
            }
        }
        proof {
            assert(crate::tree::match_views(collected@)
                =~= Seq::<(Seq<char>, Seq<(Seq<char>, Seq<char>)>)>::empty());
            assert(converted_matches(Seq::<(Seq<char>, Seq<(Seq<char>, Seq<char>)>)>::empty())
                =~= Seq::<SpecEntry>::empty());
            assert(entry_views(results@) =~= entry_views(at_start) + converted_matches(total));
        }
    }

    /// Evaluate the match policy on a candidate value.
    pub fn matches(&self, value: &str, pattern: &str, options: &SearchOptions) -> (r: bool)
        ensures
            r == spec_matches(value@, pattern@, options.case_sensitive, options.exact_match),
    {
        match_value(value, pattern, options.case_sensitive, options.exact_match)
    }
}

impl Backend for KeePassBackend {
    /// Fuzzy search of the whole tree: every record whose title matches
    /// the query, converted, in depth-first pre-order, the root's name
    /// elided from every reported path. Never fails; an empty result
    /// set is a successful result.
    fn search(&self, query: &str, options: &SearchOptions) -> (r: Result<Vec<Entry>, StoreError>)
        ensures
            r matches Ok(v) && entry_views(v@) == converted_matches(
                group_matches(self.db.root, Seq::empty(), query@, options.case_sensitive, options.exact_match),
            ),
    {
        let mut results: Vec<Entry> = Vec::new();
        self.search_recursive(&self.db.root, "", query, options, &mut results);
        proof {
            reveal_strlit("");
            assert(""@ =~= Seq::<char>::empty());
            assert(entry_views(Seq::<Entry>::empty()) =~= Seq::<SpecEntry>::empty());
        }
        Ok(results)
    }

    /// Extract one named field, failing when it has no value.
    fn get_field(&self, entry: &Entry, field_name: &str) -> (r: Result<String, StoreError>) {
        match entry.get_field(field_name) {
            Some(v) => Ok(v),
            None => Err(StoreError::FieldNotFound),
        }
    }
}

} // verus!
