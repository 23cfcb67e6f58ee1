//! The hierarchical resolver for tree-structured stores: absolute-path
//! addressing when the query begins with `/`, and recursive fuzzy
//! search under a match policy otherwise.

use vstd::prelude::*;
use vstd::string::StrSliceExecFns;
use crate::matching::{chars_eq_str, match_value, spec_matches};
use crate::tree::{
    collect_matches, group_matches, kp_fields_view, kp_title, match_views, KpDatabase, KpEntry,
    KpGroup,
};

verus! {

/// Search options governing the fuzzy mode of the resolver.
#[derive(Debug, Clone, Copy)]
pub struct SearchOptions {
    pub case_sensitive: bool,
    pub exact_match: bool,
}

/// A resolver failure. Path addressing distinguishes a missing
/// intermediate group, a missing terminal entry, and a path that names
/// a group rather than an entry; a path with no addressable segment at
/// all is rejected outright.
#[derive(Debug, Clone, Copy, PartialEq, Eq, Structural)]
pub enum LookupError {
    EmptyPath,
    RootNotAddressable,
    GroupNotFound,
    EntryNotFound,
    PathIsGroup,
}

/// One search hit: the entry's reported path and a copy of the entry.
#[derive(Debug)]
pub struct SearchResult {
    pub path: String,
    pub entry: KpEntry,
}

/// The resolver over one opened tree-structured store.
pub struct Finder<'a> {
    pub db: &'a KpDatabase,
    pub options: SearchOptions,
}

/// Splitting a character sequence on a separator: the runs between
/// separator occurrences, in order, kept even when empty. The result
/// always holds at least one piece.
pub open spec fn split_on(s: Seq<char>, sep: char) -> Seq<Seq<char>>
    decreases s.len(),
{
    if s.len() == 0 {
        seq![Seq::<char>::empty()]
    } else {
        let r = split_on(s.drop_first(), sep);
        if s[0] == sep {
            seq![Seq::<char>::empty()] + r
        } else {
            r.update(0, seq![s[0]] + r[0])
        }
    }
}

pub proof fn lemma_split_on_len(s: Seq<char>, sep: char)
    ensures
        split_on(s, sep).len() >= 1,
    decreases s.len(),
{
    if s.len() > 0 {
        lemma_split_on_len(s.drop_first(), sep);
    }
}

/// The first piece of a split prefixed with `p`.
pub open spec fn prepend_first(p: Seq<char>, r: Seq<Seq<char>>) -> Seq<Seq<char>>
    recommends
        r.len() >= 1,
{
    r.update(0, p + r[0])
}

/// The views of split pieces held in vectors.
pub open spec fn parts_views(s: Seq<Vec<char>>) -> Seq<Seq<char>> {
    s.map_values(|v: Vec<char>| v@)
}

/// Split a string on a separator into its pieces.
pub fn split_str(s: &str, sep: char) -> (parts: Vec<Vec<char>>)
    ensures
        parts_views(parts@) == split_on(s@, sep),
        parts@.len() >= 1,
{
    let len = s.unicode_len();
    let ghost full = s@;
    let mut parts: Vec<Vec<char>> = Vec::new();
    let mut cur: Vec<char> = Vec::new();
    let mut i: usize = 0;
    proof {
        lemma_split_on_len(full, sep);
        assert(full.skip(0) =~= full);
        assert(Seq::<char>::empty() + split_on(full, sep)[0] =~= split_on(full, sep)[0]);
        assert(prepend_first(cur@, split_on(full.skip(0), sep)) =~= split_on(full, sep));
    }
    #[verifier::loop_isolation(false)]
    while i < len
        invariant
            i <= len,
            len == full.len(),
            split_on(full, sep) =~= parts_views(parts@) + prepend_first(cur@, split_on(full.skip(i as int), sep)),
        decreases len - i,
    {
        let c = s.get_char(i);
        proof {
            lemma_split_on_len(full.skip(i as int + 1), sep);
            assert(full.skip(i as int)[0] == full[i as int]);
            assert(full.skip(i as int).drop_first() =~= full.skip(i as int + 1));
        }
        let ghost rest = split_on(full.skip(i as int + 1), sep);
        let ghost before_parts = parts_views(parts@);
        let ghost done = cur@;
        if c == sep {
            parts.push(cur);
            cur = Vec::new();
            proof {
                assert(parts_views(parts@) =~= before_parts + seq![done]);
                assert(split_on(full.skip(i as int), sep) == seq![Seq::<char>::empty()] + rest);
                assert((seq![Seq::<char>::empty()] + rest)[0] =~= Seq::<char>::empty());
                assert(done + (seq![Seq::<char>::empty()] + rest)[0] =~= done);
                assert(prepend_first(done, seq![Seq::<char>::empty()] + rest) =~= seq![done] + rest);
                assert(Seq::<char>::empty() + rest[0] =~= rest[0]);
                assert(prepend_first(cur@, rest) =~= rest);
                assert(parts_views(parts@) + prepend_first(cur@, split_on(full.skip(i as int + 1), sep))
                    =~= before_parts + (seq![done] + rest));
            }
        } else {
            cur.push(c);
            proof {
                let ghost su = rest.update(0, seq![full[i as int]] + rest[0]);
                assert(split_on(full.skip(i as int), sep) == su);
                assert(cur@ =~= done + seq![full[i as int]]);
                assert(su[0] == seq![full[i as int]] + rest[0]);
                assert(done + (seq![full[i as int]] + rest[0]) =~= cur@ + rest[0]);
                assert(prepend_first(done, su) =~= prepend_first(cur@, rest));
            }
        }
        i += 1;
    }
    proof {
        assert(full.skip(len as int) =~= Seq::<char>::empty());
        assert(split_on(Seq::<char>::empty(), sep) == seq![Seq::<char>::empty()]);
        assert(cur@ + Seq::<char>::empty() =~= cur@);
        assert(prepend_first(cur@, seq![Seq::<char>::empty()]) =~= seq![cur@]);
    }
    let ghost before_parts = parts_views(parts@);
    let ghost done = cur@;
    parts.push(cur);
    proof {
        assert(parts_views(parts@) =~= before_parts + seq![done]);
        assert(parts_views(parts@) =~= split_on(full, sep));
    }
    parts
}

/// Split a string on `/` into its pieces.
pub fn split_slashes(s: &str) -> (parts: Vec<Vec<char>>)
    ensures
        parts_views(parts@) == split_on(s@, '/'),
        parts@.len() >= 1,
{
    split_str(s, '/')
}

/// The first direct child group bearing a name, in enumeration order.
pub open spec fn first_child(children: Seq<KpGroup>, name: Seq<char>) -> Option<KpGroup>
    decreases children.len(),
{
    if children.len() == 0 {
        None
    } else if children[0].name@ == name {
        Some(children[0])
    } else {
        first_child(children.drop_first(), name)
    }
}

/// The first direct entry bearing a title, in enumeration order.
pub open spec fn first_entry(entries: Seq<KpEntry>, title: Seq<char>) -> Option<KpEntry>
    decreases entries.len(),
{
    if entries.len() == 0 {
        None
    } else if kp_title(entries[0]) == title {
        Some(entries[0])
    } else {
        first_entry(entries.drop_first(), title)
    }
}

pub proof fn lemma_first_child_skip(children: Seq<KpGroup>, name: Seq<char>, i: int)
    requires
        0 <= i <= children.len(),
        forall|j: int| 0 <= j < i ==> children[j].name@ != name,
    ensures
        first_child(children, name) == first_child(children.skip(i), name),
    decreases i,
{
    if i > 0 {
        lemma_first_child_skip(children.drop_first(), name, i - 1);
        assert(children.drop_first().skip(i - 1) =~= children.skip(i));
    } else {
        assert(children.skip(0) =~= children);
    }
}

pub proof fn lemma_first_entry_skip(entries: Seq<KpEntry>, title: Seq<char>, i: int)
    requires
        0 <= i <= entries.len(),
        forall|j: int| 0 <= j < i ==> kp_title(entries[j]) != title,
    ensures
        first_entry(entries, title) == first_entry(entries.skip(i), title),
    decreases i,
{
    if i > 0 {
        lemma_first_entry_skip(entries.drop_first(), title, i - 1);
        assert(entries.drop_first().skip(i - 1) =~= entries.skip(i));
    } else {
        assert(entries.skip(0) =~= entries);
    }
}

/// Walking path segments down from a group: a non-terminal segment must
/// name a direct child group; the terminal segment must name an entry,
/// and fails when it names a group instead. The found entry is given by
/// its fields.
pub open spec fn resolve_in(g: KpGroup, segs: Seq<Seq<char>>) -> Result<
    Seq<(Seq<char>, Seq<char>)>,
    LookupError,
>
    decreases segs.len(),
{
    if segs.len() == 0 {
        Err(LookupError::PathIsGroup)
    } else {
        match first_child(g.children@, segs[0]) {
            Some(child) => {
                if segs.len() == 1 {
                    Err(LookupError::PathIsGroup)
                } else {
                    resolve_in(child, segs.drop_first())
                }
            },
            None => {
                if segs.len() == 1 {
                    match first_entry(g.entries@, segs[0]) {
                        Some(e) => Ok(kp_fields_view(e)),
                        None => Err(LookupError::EntryNotFound),
                    }
                } else {
                    Err(LookupError::GroupNotFound)
                }
            },
        }
    }
}

/// Absolute-path resolution over a whole store: split on `/`, discard
/// the leading empty segment, skip a first segment equal to the root
/// group's name, and walk the rest down from the root.
pub open spec fn spec_resolve_abs(db: KpDatabase, path: Seq<char>) -> Result<
    Seq<(Seq<char>, Seq<char>)>,
    LookupError,
> {
    let parts0 = split_on(path, '/');
    let parts = if parts0[0].len() == 0 {
        parts0.drop_first()
    } else {
        parts0
    };
    if parts.len() == 0 {
        Err(LookupError::EmptyPath)
    } else {
        let parts1 = if parts[0] == db.root.name@ {
            parts.drop_first()
        } else {
            parts
        };
        if parts1.len() == 0 {
            Err(LookupError::RootNotAddressable)
        } else {
            resolve_in(db.root, parts1)
        }
    }
}

/// The complete fuzzy-search result set of a store for a query under a
/// policy: every entry in the tree whose title matches, in depth-first
/// pre-order, each with its reported path. The root group's name is
/// elided unconditionally: the root's display path is empty, whatever
/// its name.
pub open spec fn spec_search(
    db: KpDatabase,
    query: Seq<char>,
    case_sensitive: bool,
    exact_match: bool,
) -> Seq<(Seq<char>, Seq<(Seq<char>, Seq<char>)>)> {
    group_matches(db.root, Seq::empty(), query, case_sensitive, exact_match)
}

/// A query that selects absolute-path mode: it begins with `/`.
pub open spec fn is_abs_query(q: Seq<char>) -> bool {
    q.len() > 0 && q[0] == '/'
}

/// The views of search results: each as its reported path and the
/// fields of its entry.
pub open spec fn sr_views(s: Seq<SearchResult>) -> Seq<(Seq<char>, Seq<(Seq<char>, Seq<char>)>)> {
    s.map_values(|r: SearchResult| (r.path@, kp_fields_view(r.entry)))
}

/// The index of the first direct child group bearing a name.
fn find_child_index(children: &Vec<KpGroup>, seg: &Vec<char>) -> (r: Option<usize>)
    ensures
        match r {
            Some(ci) => ci < children@.len() && children@[ci as int].name@ == seg@
                && (forall|j: int| 0 <= j < ci ==> children@[j].name@ != seg@),
            None => forall|j: int| 0 <= j < children@.len() ==> children@[j].name@ != seg@,
        },
{
    let mut k: usize = 0;
    while k < children.len()
        invariant
            k <= children@.len(),
            forall|j: int| 0 <= j < k ==> children@[j].name@ != seg@,
        decreases children@.len() - k,
    {
        if chars_eq_str(seg, children[k].name.as_str()) {
            return Some(k);
        }
        k += 1;
    }
    None
}

fn resolve_segments(g: &KpGroup, segs: &Vec<Vec<char>>, i: usize) -> (r: Result<
    KpEntry,
    LookupError,
>)
    requires
        i < segs@.len(),
    ensures
        match r {
            Ok(e) => resolve_in(*g, parts_views(segs@).skip(i as int))
                == Ok::<Seq<(Seq<char>, Seq<char>)>, LookupError>(kp_fields_view(e)),
            Err(er) => resolve_in(*g, parts_views(segs@).skip(i as int))
                == Err::<Seq<(Seq<char>, Seq<char>)>, LookupError>(er),
        },
    decreases segs@.len() - i,
{
    let ghost rest = parts_views(segs@).skip(i as int);
    proof {
        assert(rest[0] == parts_views(segs@)[i as int]);
        assert(rest.drop_first() =~= parts_views(segs@).skip(i as int + 1));
    }
    let is_last = i == segs.len() - 1;
    let ghost children = g.children@;
    let child_index = find_child_index(&g.children, &segs[i]);
    match child_index {
        Some(ci) => {
            proof {
                lemma_first_child_skip(children, rest[0], ci as int);
                assert(children.skip(ci as int)[0] == children[ci as int]);
            }
            if is_last {
                Err(LookupError::PathIsGroup)
            } else {
                resolve_segments(&g.children[ci], segs, i + 1)
            }
        },
        None => {
            proof {
                lemma_first_child_skip(children, rest[0], children.len() as int);
                assert(children.skip(children.len() as int) =~= Seq::<KpGroup>::empty());
            }
            if is_last {
                let ghost entries = g.entries@;
                let mut j: usize = 0;
                #[verifier::loop_isolation(false)]
                while j < g.entries.len()
                    invariant
                        j <= g.entries.len(),
                        forall|t: int| 0 <= t < j ==> kp_title(entries[t]) != rest[0],
                    decreases g.entries.len() - j,
                {
                    let title = g.entries[j].get_title();
                    if chars_eq_str(&segs[i], title.as_str()) {
                        proof {
                            lemma_first_entry_skip(entries, rest[0], j as int);
                            assert(entries.skip(j as int)[0] == entries[j as int]);
                        }
                        return Ok(g.entries[j].duplicate());
                    }
                    j += 1;
                }
                proof {
                    lemma_first_entry_skip(entries, rest[0], entries.len() as int);
                    assert(entries.skip(entries.len() as int) =~= Seq::<KpEntry>::empty());
                }
                Err(LookupError::EntryNotFound)
            } else {
                Err(LookupError::GroupNotFound)
            }
        },
    }
}

impl<'a> Finder<'a> {
    /// A resolver over an opened store with a fixed match policy.
    pub fn new(db: &'a KpDatabase, options: SearchOptions) -> (f: Finder<'a>)
        ensures
            f.db == db,
            f.options == options,
    {
        Finder { db, options }
    }

    /// Route a query by its shape: absolute-path mode when it begins
    /// with `/`, fuzzy search otherwise.
    pub fn find(&self, query: &str) -> (r: Result<Vec<SearchResult>, LookupError>)
        ensures
            is_abs_query(query@) ==> match r {
                Ok(v) => spec_resolve_abs(*self.db, query@) matches Ok(fs) && v@.len() == 1
                    && v@[0].path@ == query@ && kp_fields_view(v@[0].entry) == fs,
                Err(e) => spec_resolve_abs(*self.db, query@)
                    == Err::<Seq<(Seq<char>, Seq<char>)>, LookupError>(e),
            },
            !is_abs_query(query@) ==> match r {
                Ok(v) => sr_views(v@) == spec_search(
                    *self.db,
                    query@,
                    self.options.case_sensitive,
                    self.options.exact_match,
                ),
                Err(e) => false,
            },
    {
        if query.unicode_len() > 0 && query.get_char(0) == '/' {
            self.find_by_absolute_path(query)
        } else {
            self.find_by_search(query)
        }
    }

    /// Address exactly one entry by its hierarchical location. Exactly
    /// one result is returned on success; each failure names its cause.
    pub fn find_by_absolute_path(&self, path: &str) -> (r: Result<Vec<SearchResult>, LookupError>)
        ensures
            match r {
                Ok(v) => spec_resolve_abs(*self.db, path@) matches Ok(fs) && v@.len() == 1
                    && v@[0].path@ == path@ && kp_fields_view(v@[0].entry) == fs,
                Err(e) => spec_resolve_abs(*self.db, path@)
                    == Err::<Seq<(Seq<char>, Seq<char>)>, LookupError>(e),
            },
    {
        let parts = split_slashes(path);
        let ghost pv = parts_views(parts@);
        proof {
            assert(pv.drop_first() =~= pv.skip(1));
            assert(pv.skip(0) =~= pv);
        }
        let mut start: usize = 0;
        if parts[0].len() == 0 {
            start = 1;
        }
        // pv.skip(start) is now the segment list with the leading empty
        // segment discarded.
        if start == parts.len() {
            return Err(LookupError::EmptyPath);
        }
        if chars_eq_str(&parts[start], self.db.root.name.as_str()) {
            proof {
                assert(pv.skip(start as int).drop_first() =~= pv.skip(start as int + 1));
            }
            start = start + 1;
        }
        // pv.skip(start) is now the walked segment list of the
        // specification.
        if start == parts.len() {
            return Err(LookupError::RootNotAddressable);
        }
        match resolve_segments(&self.db.root, &parts, start) {
            Ok(e) => {
                let mut v: Vec<SearchResult> = Vec::new();
                v.push(SearchResult { path: path.to_owned(), entry: e });
                Ok(v)
            },
            Err(er) => Err(er),
        }
    }

    /// Depth-first fuzzy search of the whole store: every entry whose
    /// title matches the query under this resolver's policy, with its
    /// reported path. An empty result set is a successful result.
    pub fn find_by_search(&self, query: &str) -> (r: Result<Vec<SearchResult>, LookupError>)
        ensures
            match r {
                Ok(v) => sr_views(v@) == spec_search(
                    *self.db,
                    query@,
                    self.options.case_sensitive,
                    self.options.exact_match,
                ),
                Err(e) => false,
            },
    {
        let mut collected: Vec<(String, KpEntry)> = Vec::new();
        collect_matches(
            &self.db.root,
            "",
            query,
            self.options.case_sensitive,
            self.options.exact_match,
            &mut collected,
        );
        proof {
            reveal_strlit("");
            assert(""@ =~= Seq::<char>::empty());
            assert(match_views(Seq::<(String, KpEntry)>::empty()) =~= Seq::<(Seq<char>, Seq<(Seq<char>, Seq<char>)>)>::empty());
        }
        let ghost total = match_views(collected@);
        let mut results: Vec<SearchResult> = Vec::new();
        #[verifier::loop_isolation(false)]
        while collected.len() > 0
            invariant
                sr_views(results@) + match_views(collected@) =~= total,
            decreases collected.len(),
        {
            let ghost before = collected@;
            let ghost rbefore = results@;
            let (p, e) = collected.remove(0);
            results.push(SearchResult { path: p, entry: e });
            proof {
                assert(before.drop_first() =~= collected@);
                assert(match_views(before) =~= seq![(before[0].0@, kp_fields_view(before[0].1))] + match_views(collected@));
                assert(sr_views(results@) =~= sr_views(rbefore) + seq![(before[0].0@, kp_fields_view(before[0].1))]);
            }
        }
        proof {
            assert(match_views(collected@) =~= Seq::<(Seq<char>, Seq<(Seq<char>, Seq<char>)>)>::empty());
            assert(sr_views(results@) =~= total);
        }
        Ok(results)
    }

    /// Evaluate this resolver's match policy on a candidate value.
    pub fn matches(&self, value: &str, pattern: &str) -> (r: bool)
        ensures
            r == spec_matches(value@, pattern@, self.options.case_sensitive, self.options.exact_match),
    {
        match_value(value, pattern, self.options.case_sensitive, self.options.exact_match)
    }
}

} // verus!
