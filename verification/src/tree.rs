//! The credential tree of the tree-structured store: groups holding
//! entries and child groups, the display-path rules, and the depth-first
//! pre-order traversal that collects every entry whose title matches a
//! query. The tree is read-only for the duration of a query.

use vstd::prelude::*;
use vstd::string::{StrSliceExecFns, StringExecFns};
use crate::backend::{lemma_custom_lookup_skip, opt_view, spec_custom_lookup};
use crate::matching::{match_value, spec_matches, str_eq};

verus! {

broadcast use vstd::std_specs::vec::axiom_vec_index_decreases;

/// One record of the tree-structured store: a list of named string
/// fields. The standard attributes (title, user name, password, URL,
/// notes) are fields like any other, under their conventional keys.
#[derive(Debug)]
pub struct KpEntry {
    pub fields: Vec<(String, String)>,
}

/// A named container of entries and child groups.
#[derive(Debug)]
pub struct KpGroup {
    pub name: String,
    pub entries: Vec<KpEntry>,
    pub children: Vec<KpGroup>,
}

/// A whole tree-structured store: its root group.
#[derive(Debug)]
pub struct KpDatabase {
    pub root: KpGroup,
}

/// The fields of a record, as character sequences.
pub open spec fn kp_fields_view(e: KpEntry) -> Seq<(Seq<char>, Seq<char>)> {
    Seq::new(e.fields@.len(), |i: int| (e.fields@[i].0@, e.fields@[i].1@))
}

/// Exact-key lookup among a record's fields: the value of the first
/// field with that key.
pub open spec fn kp_lookup(e: KpEntry, key: Seq<char>) -> Option<Seq<char>> {
    spec_custom_lookup(kp_fields_view(e), key)
}

/// The title carried by a record's fields: the "Title" field, or the
/// empty sequence when there is none.
pub open spec fn fields_title(fs: Seq<(Seq<char>, Seq<char>)>) -> Seq<char> {
    match spec_custom_lookup(fs, "Title"@) {
        Some(t) => t,
        None => Seq::empty(),
    }
}

/// A record's title: its "Title" field, or the empty sequence when the
/// record has none.
pub open spec fn kp_title(e: KpEntry) -> Seq<char> {
    fields_title(kp_fields_view(e))
}

impl KpEntry {
    /// Exact-key lookup among the record's fields.
    pub fn get(&self, key: &str) -> (r: Option<String>)
        ensures
            opt_view(r) == kp_lookup(*self, key@),
    {
        let ghost fields = kp_fields_view(*self);
        let mut i: usize = 0;
        #[verifier::loop_isolation(false)]
        while i < self.fields.len()
            invariant
                i <= self.fields.len(),
                forall|j: int| 0 <= j < i ==> fields[j].0 != key@,
            decreases self.fields.len() - i,
        {
            if str_eq(self.fields[i].0.as_str(), key) {
                proof {
                    lemma_custom_lookup_skip(fields, key@, i as int);
                    assert(fields.skip(i as int)[0] == fields[i as int]);
                }
                return Some(self.fields[i].1.clone());
            }
            i += 1;
        }
        proof {
            lemma_custom_lookup_skip(fields, key@, fields.len() as int);
            assert(fields.skip(fields.len() as int) =~= Seq::<(Seq<char>, Seq<char>)>::empty());
        }
        None
    }

    /// The record's title, or the empty string when it has none.
    pub fn get_title(&self) -> (r: String)
        ensures
            r@ == kp_title(*self),
    {
        match self.get("Title") {
            Some(t) => t,
            None => String::new(),
        }
    }

    /// A copy of the record that owns its own string data.
    pub fn duplicate(&self) -> (r: KpEntry)
        ensures
            kp_fields_view(r) == kp_fields_view(*self),
    {
        let mut fields: Vec<(String, String)> = Vec::new();
        let mut i: usize = 0;
        #[verifier::loop_isolation(false)]
        while i < self.fields.len()
            invariant
                i <= self.fields.len(),
                fields@.len() == i,
                forall|j: int| 0 <= j < i ==> fields@[j] == self.fields@[j],
            decreases self.fields.len() - i,
        {
            fields.push((self.fields[i].0.clone(), self.fields[i].1.clone()));
            i += 1;
        }
        let r = KpEntry { fields };
        proof {
            assert(kp_fields_view(r) =~= kp_fields_view(*self));
        }
        r
    }
}

/// The display path of a group below the root, reached from a parent
/// whose own display path is `current`: the group's name, joined onto
/// the parent's path with `/` where that path is nonempty. The root
/// group itself is never passed through here — its name is elided
/// unconditionally, so its display path is empty and it contributes no
/// segment.
pub open spec fn group_display_path(current: Seq<char>, name: Seq<char>) -> Seq<char> {
    if current.len() == 0 {
        name
    } else {
        current + "/"@ + name
    }
}

/// The reported path of a matching entry: `/` followed by the group's
/// display path and the title, joined with `/`.
pub open spec fn entry_result_path(group_path: Seq<char>, title: Seq<char>) -> Seq<char> {
    if group_path.len() == 0 {
        "/"@ + title
    } else {
        "/"@ + group_path + "/"@ + title
    }
}

/// The matches among one group's own entries, in order: each entry
/// whose title matches the query contributes its reported path and the
/// entry itself.
pub open spec fn own_matches(
    entries: Seq<KpEntry>,
    group_path: Seq<char>,
    query: Seq<char>,
    case_sensitive: bool,
    exact_match: bool,
) -> Seq<(Seq<char>, Seq<(Seq<char>, Seq<char>)>)>
    decreases entries.len(),
{
    if entries.len() == 0 {
        Seq::empty()
    } else {
        let rest = own_matches(entries.drop_first(), group_path, query, case_sensitive, exact_match);
        if spec_matches(kp_title(entries[0]), query, case_sensitive, exact_match) {
            seq![(entry_result_path(group_path, kp_title(entries[0])), kp_fields_view(entries[0]))] + rest
        } else {
            rest
        }
    }
}

/// All matches in the subtree at `g`, whose own display path is `gp`:
/// the group's matching entries first, then the matches of each child
/// group in order.
pub open spec fn group_matches(
    g: KpGroup,
    gp: Seq<char>,
    query: Seq<char>,
    case_sensitive: bool,
    exact_match: bool,
) -> Seq<(Seq<char>, Seq<(Seq<char>, Seq<char>)>)>
    decreases g, 1int, 0int,
{
    own_matches(g.entries@, gp, query, case_sensitive, exact_match)
        + forest_matches(g, 0, gp, query, case_sensitive, exact_match)
}

/// All matches in the subtree at a non-root group `g`, reached from a
/// parent whose display path is `current`.
pub open spec fn tree_matches(
    g: KpGroup,
    current: Seq<char>,
    query: Seq<char>,
    case_sensitive: bool,
    exact_match: bool,
) -> Seq<(Seq<char>, Seq<(Seq<char>, Seq<char>)>)>
    decreases g, 2int, 0int,
{
    group_matches(g, group_display_path(current, g.name@), query, case_sensitive, exact_match)
}

/// The matches contributed by the children of `g` from index `i` on,
/// each searched below `g`'s display path `gp`.
pub open spec fn forest_matches(
    g: KpGroup,
    i: int,
    gp: Seq<char>,
    query: Seq<char>,
    case_sensitive: bool,
    exact_match: bool,
) -> Seq<(Seq<char>, Seq<(Seq<char>, Seq<char>)>)>
    decreases g, 0int, g.children.len() - i,
{
    if i < 0 || i >= g.children.len() {
        Seq::empty()
    } else {
        tree_matches(g.children[i as int], gp, query, case_sensitive, exact_match)
            + forest_matches(g, i + 1, gp, query, case_sensitive, exact_match)
    }
}

/// Join a parent's display path and a child group's name into the
/// child's display path.
pub fn join_group_path(current: &str, name: &str) -> (r: String)
    ensures
        r@ == group_display_path(current@, name@),
{
    if current.unicode_len() == 0 {
        name.to_owned()
    } else {
        let mut r = current.to_owned();
        r.append("/");
        r.append(name);
        r
    }
}

/// Build the reported path of a matching entry from its group's display
/// path and its title.
pub fn join_entry_path(group_path: &str, title: &str) -> (r: String)
    ensures
        r@ == entry_result_path(group_path@, title@),
{
    if group_path.unicode_len() == 0 {
        let mut r = String::new();
        r.append("/");
        r.append(title);
        r
    } else {
        let mut r = String::new();
        r.append("/");
        r.append(group_path);
        r.append("/");
        r.append(title);
        r
    }
}

/// The views of collected matches: each as its reported path and the
/// fields of its entry.
pub open spec fn match_views(s: Seq<(String, KpEntry)>) -> Seq<(Seq<char>, Seq<(Seq<char>, Seq<char>)>)> {
    s.map_values(|p: (String, KpEntry)| (p.0@, kp_fields_view(p.1)))
}

/// Depth-first pre-order traversal: append to `results` the reported
/// path and a copy of every entry in the subtree at `g` whose title
/// matches the query under the given policy. `group_path` is `g`'s own
/// display path — empty for the store's root, whose name is elided.
pub fn collect_matches(
    g: &KpGroup,
    group_path: &str,
    query: &str,
    case_sensitive: bool,
    exact_match: bool,
    results: &mut Vec<(String, KpEntry)>,
)
    ensures
        match_views(final(results)@) == match_views(old(results)@)
            + group_matches(*g, group_path@, query@, case_sensitive, exact_match),
    decreases *g,
{
    let ghost gp = group_path@;
    let ghost entries = g.entries@;
    let ghost at_entry = old(results)@;

    proof {
        assert(entries.skip(0) =~= entries);
    }
    let mut i: usize = 0;
    #[verifier::loop_isolation(false)]
    while i < g.entries.len()
        invariant
            i <= g.entries.len(),
            match_views(results@) + own_matches(entries.skip(i as int), gp, query@, case_sensitive, exact_match)
                =~= match_views(at_entry) + own_matches(entries, gp, query@, case_sensitive, exact_match),
        decreases g.entries.len() - i,
    {
        let title = g.entries[i].get_title();
        proof {
            assert(entries.skip(i as int)[0] == entries[i as int]);
            assert(entries.skip(i as int).drop_first() =~= entries.skip(i as int + 1));
        }
        if match_value(title.as_str(), query, case_sensitive, exact_match) {
            let path = join_entry_path(group_path, title.as_str());
            let ghost before = results@;
            results.push((path, g.entries[i].duplicate()));
            proof {
                assert(match_views(results@) =~= match_views(before)
                    + seq![(entry_result_path(gp, kp_title(entries[i as int])), kp_fields_view(entries[i as int]))]);
            }
        }
        i += 1;
    }
    proof {
        assert(entries.skip(entries.len() as int) =~= Seq::<KpEntry>::empty());
    }

    let ghost at_children = results@;
    let mut c: usize = 0;
    #[verifier::loop_isolation(false)]
    while c < g.children.len()
        invariant
            c <= g.children.len(),
            match_views(results@) + forest_matches(*g, c as int, gp, query@, case_sensitive, exact_match)
                =~= match_views(at_children) + forest_matches(*g, 0, gp, query@, case_sensitive, exact_match),
        decreases g.children.len() - c,
    {
        let child_path = join_group_path(group_path, g.children[c].name.as_str());
        proof {
            assert(tree_matches(g.children[c as int], gp, query@, case_sensitive, exact_match)
                == group_matches(
                g.children[c as int],
                group_display_path(gp, g.children[c as int].name@),
                query@,
                case_sensitive,
                exact_match,
            ));
        }
        collect_matches(&g.children[c], child_path.as_str(), query, case_sensitive, exact_match, results);
        c += 1;
    }
}

} // verus!
