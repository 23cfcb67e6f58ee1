//! Store-wide laws of the hierarchical resolver: absolute-path
//! resolution is deterministic, fuzzy-search paths lead back to an
//! entry of the same title, every reported result's title matches the
//! query, and the root group's name never contributes a path segment.

use vstd::prelude::*;
use crate::search::{
    first_child, first_entry, lemma_first_child_skip, lemma_split_on_len, resolve_in,
    spec_resolve_abs, spec_search, split_on, LookupError,
};
use crate::tree::{
    entry_result_path, fields_title, forest_matches, group_display_path, group_matches,
    kp_fields_view, kp_title, own_matches, tree_matches, KpDatabase, KpEntry, KpGroup,
};
use crate::matching::spec_matches;

verus! {

broadcast use vstd::std_specs::vec::axiom_vec_index_decreases;

/// A name usable as a single path segment: nonempty and free of `/`.
pub open spec fn name_ok(n: Seq<char>) -> bool {
    n.len() > 0 && forall|i: int| 0 <= i < n.len() ==> n[i] != '/'
}

/// Well-formedness of a subtree for path reconstruction: child names
/// are segment-safe and pairwise distinct, and entry titles are
/// segment-safe and never shared with a sibling child group's name.
pub open spec fn subtree_wf(g: KpGroup) -> bool
    decreases g,
{
    &&& (forall|i: int| 0 <= i < g.children.len() ==> name_ok(#[trigger] g.children[i].name@))
    &&& (forall|i: int, j: int|
        0 <= i < j < g.children.len() ==> (#[trigger] g.children[i].name@) != (
        #[trigger] g.children[j].name@))
    &&& (forall|i: int| 0 <= i < g.entries.len() ==> name_ok(kp_title(#[trigger] g.entries[i])))
    &&& (forall|i: int, j: int|
        0 <= i < g.entries.len() && 0 <= j < g.children.len() ==> kp_title(
            #[trigger] g.entries[i],
        ) != (#[trigger] g.children[j].name@))
    &&& (forall|i: int| 0 <= i < g.children.len() ==> subtree_wf(#[trigger] g.children[i]))
}

/// Well-formedness of a whole store for path reconstruction. The root
/// group's name never appears in a reported path, so nothing directly
/// under the root may be named like the root: absolute-path resolution
/// skips a leading segment equal to the root's name.
pub open spec fn db_wf(db: KpDatabase) -> bool {
    &&& subtree_wf(db.root)
    &&& (forall|i: int|
        0 <= i < db.root.entries.len() ==> kp_title(#[trigger] db.root.entries[i])
            != db.root.name@)
    &&& (forall|i: int|
        0 <= i < db.root.children.len() ==> (#[trigger] db.root.children[i].name@)
            != db.root.name@)
}

/// Walking a list of group names down from a group, each step into the
/// first child of that name.
pub open spec fn walk(g: KpGroup, pre: Seq<Seq<char>>) -> Option<KpGroup>
    decreases pre.len(),
{
    if pre.len() == 0 {
        Some(g)
    } else {
        match first_child(g.children@, pre[0]) {
            Some(c) => walk(c, pre.drop_first()),
            None => None,
        }
    }
}

proof fn lemma_walk_extend(g: KpGroup, pre: Seq<Seq<char>>, g2: KpGroup, n: Seq<char>, c: KpGroup)
    requires
        walk(g, pre) == Some(g2),
        first_child(g2.children@, n) == Some(c),
    ensures
        walk(g, pre.push(n)) == Some(c),
    decreases pre.len(),
{
    if pre.len() == 0 {
        assert(pre.push(n)[0] == n);
        assert(pre.push(n).drop_first() =~= Seq::<Seq<char>>::empty());
        assert(walk(c, Seq::<Seq<char>>::empty()) == Some(c));
    } else {
        match first_child(g.children@, pre[0]) {
            Some(c0) => {
                lemma_walk_extend(c0, pre.drop_first(), g2, n, c);
                assert(pre.push(n)[0] == pre[0]);
                assert(pre.push(n).drop_first() =~= pre.drop_first().push(n));
            },
            None => {
                assert(false);
            },
        }
    }
}

proof fn lemma_resolve_via_walk(
    g: KpGroup,
    pre: Seq<Seq<char>>,
    tail: KpGroup,
    t: Seq<char>,
    e: KpEntry,
)
    requires
        walk(g, pre) == Some(tail),
        first_child(tail.children@, t) is None,
        first_entry(tail.entries@, t) == Some(e),
    ensures
        resolve_in(g, pre + seq![t]) == Ok::<Seq<(Seq<char>, Seq<char>)>, LookupError>(
            kp_fields_view(e),
        ),
    decreases pre.len(),
{
    let segs = pre + seq![t];
    if pre.len() == 0 {
        assert(segs.len() == 1);
        assert(segs[0] == t);
    } else {
        assert(segs[0] == pre[0]);
        match first_child(g.children@, pre[0]) {
            Some(c0) => {
                assert(segs.drop_first() =~= pre.drop_first() + seq![t]);
                lemma_resolve_via_walk(c0, pre.drop_first(), tail, t, e);
            },
            None => {
                assert(false);
            },
        }
    }
}

proof fn lemma_first_entry_same_title(es: Seq<KpEntry>, t: Seq<char>)
    requires
        exists|j: int| 0 <= j < es.len() && kp_title(#[trigger] es[j]) == t,
    ensures
        first_entry(es, t) matches Some(e) && kp_title(e) == t,
    decreases es.len(),
{
    if es.len() > 0 && kp_title(es[0]) != t {
        let j = choose|j: int| 0 <= j < es.len() && kp_title(#[trigger] es[j]) == t;
        assert(es.drop_first()[j - 1] == es[j]);
        lemma_first_entry_same_title(es.drop_first(), t);
    }
}

proof fn lemma_split_concat(a: Seq<char>, b: Seq<char>)
    ensures
        split_on(a + seq!['/'] + b, '/') == split_on(a, '/') + split_on(b, '/'),
    decreases a.len(),
{
    let s = a + seq!['/'] + b;
    if a.len() == 0 {
        assert(s[0] == '/');
        assert(s.drop_first() =~= b);
        assert(a =~= Seq::<char>::empty());
        assert(split_on(s, '/') =~= split_on(a, '/') + split_on(b, '/'));
    } else {
        assert(s[0] == a[0]);
        assert(s.drop_first() =~= a.drop_first() + seq!['/'] + b);
        lemma_split_concat(a.drop_first(), b);
        lemma_split_on_len(a.drop_first(), '/');
        let ra = split_on(a.drop_first(), '/');
        let rb = split_on(b, '/');
        if a[0] == '/' {
            assert((seq![Seq::<char>::empty()] + ra) + rb =~= seq![Seq::<char>::empty()] + (ra
                + rb));
        } else {
            assert((ra + rb)[0] == ra[0]);
            assert((ra + rb).update(0, seq![a[0]] + (ra + rb)[0]) =~= ra.update(
                0,
                seq![a[0]] + ra[0],
            ) + rb);
        }
    }
}

proof fn lemma_split_single(n: Seq<char>)
    requires
        forall|i: int| 0 <= i < n.len() ==> n[i] != '/',
    ensures
        split_on(n, '/') == seq![n],
    decreases n.len(),
{
    if n.len() == 0 {
        assert(n =~= Seq::<char>::empty());
        assert(split_on(n, '/') =~= seq![n]);
    } else {
        lemma_split_single(n.drop_first());
        assert(seq![n[0]] + n.drop_first() =~= n);
        assert(split_on(n, '/') =~= seq![n]);
    }
}

proof fn lemma_own_matches_elem(
    es: Seq<KpEntry>,
    gp: Seq<char>,
    q: Seq<char>,
    cs: bool,
    em: bool,
    k: int,
)
    requires
        0 <= k < own_matches(es, gp, q, cs, em).len(),
    ensures
        exists|j: int|
            0 <= j < es.len() && spec_matches(kp_title(#[trigger] es[j]), q, cs, em)
                && own_matches(es, gp, q, cs, em)[k] == (
            entry_result_path(gp, kp_title(es[j])),
            kp_fields_view(es[j]),
            ),
    decreases es.len(),
{
    let whole = own_matches(es, gp, q, cs, em);
    let rest = own_matches(es.drop_first(), gp, q, cs, em);
    if spec_matches(kp_title(es[0]), q, cs, em) {
        if k == 0 {
            assert(whole[0] == (entry_result_path(gp, kp_title(es[0])), kp_fields_view(es[0])));
        } else {
            lemma_own_matches_elem(es.drop_first(), gp, q, cs, em, k - 1);
            let j = choose|j: int|
                0 <= j < es.drop_first().len() && spec_matches(
                    kp_title(#[trigger] es.drop_first()[j]),
                    q,
                    cs,
                    em,
                ) && rest[k - 1] == (
                entry_result_path(gp, kp_title(es.drop_first()[j])),
                kp_fields_view(es.drop_first()[j]),
                );
            assert(es.drop_first()[j] == es[j + 1]);
            assert(whole[k] == rest[k - 1]);
        }
    } else {
        lemma_own_matches_elem(es.drop_first(), gp, q, cs, em, k);
        let j = choose|j: int|
            0 <= j < es.drop_first().len() && spec_matches(
                kp_title(#[trigger] es.drop_first()[j]),
                q,
                cs,
                em,
            ) && rest[k] == (
            entry_result_path(gp, kp_title(es.drop_first()[j])),
            kp_fields_view(es.drop_first()[j]),
            );
        assert(es.drop_first()[j] == es[j + 1]);
        assert(whole[k] == rest[k]);
    }
}

/// The position invariant of a group inside a well-formed store: `pre`
/// walks from the root to the group, the group's display path `gp`
/// splits back into exactly `pre`, and the walk never starts with the
/// root's own name (which resolution would skip).
pub open spec fn at_position(db: KpDatabase, g: KpGroup, gp: Seq<char>, pre: Seq<Seq<char>>) -> bool {
    &&& walk(db.root, pre) == Some(g)
    &&& subtree_wf(g)
    &&& (gp.len() == 0 ==> pre.len() == 0)
    &&& (gp.len() > 0 ==> split_on(gp, '/') == pre)
    &&& (pre.len() > 0 ==> pre[0] != db.root.name@)
}

proof fn lemma_group_elem_resolvable(
    db: KpDatabase,
    g: KpGroup,
    gp: Seq<char>,
    pre: Seq<Seq<char>>,
    q: Seq<char>,
    cs: bool,
    em: bool,
    k: int,
)
    requires
        db_wf(db),
        at_position(db, g, gp, pre),
        0 <= k < group_matches(g, gp, q, cs, em).len(),
    ensures
        spec_resolve_abs(db, group_matches(g, gp, q, cs, em)[k].0) matches Ok(fs) && fields_title(
            fs,
        ) == fields_title(group_matches(g, gp, q, cs, em)[k].1),
    decreases g, 1int, 0int,
{
    let own = own_matches(g.entries@, gp, q, cs, em);
    reveal_strlit("/");
    reveal_strlit("");
    assert("/"@ =~= seq!['/']);
    if k < own.len() {
        lemma_own_matches_elem(g.entries@, gp, q, cs, em, k);
        let j = choose|j: int|
            0 <= j < g.entries@.len() && spec_matches(
                kp_title(#[trigger] g.entries@[j]),
                q,
                cs,
                em,
            ) && own[k] == (
            entry_result_path(gp, kp_title(g.entries@[j])),
            kp_fields_view(g.entries@[j]),
            );
        let t = kp_title(g.entries@[j]);
        assert(name_ok(t));
        assert(forall|ci: int| 0 <= ci < g.children.len() ==> (#[trigger] g.children[ci].name@) != t);
        lemma_first_child_skip(g.children@, t, g.children@.len() as int);
        assert(g.children@.skip(g.children@.len() as int) =~= Seq::<KpGroup>::empty());
        assert(first_child(g.children@, t) is None);
        lemma_first_entry_same_title(g.entries@, t);
        match first_entry(g.entries@, t) {
            Some(e) => {
                lemma_resolve_via_walk(db.root, pre, g, t, e);
                let p = entry_result_path(gp, t);
                if gp.len() == 0 {
                    // the group is the root itself; its name is elided
                    // and, by well-formedness, never equals the title
                    assert(g == db.root);
                    assert(p =~= Seq::<char>::empty() + seq!['/'] + t);
                    lemma_split_concat(Seq::<char>::empty(), t);
                    lemma_split_single(t);
                    let parts0 = split_on(p, '/');
                    assert(parts0 =~= seq![Seq::<char>::empty()] + seq![t]);
                    assert(parts0[0].len() == 0);
                    assert(parts0.drop_first() =~= seq![t]);
                    assert(t != db.root.name@);
                    assert(pre + seq![t] =~= seq![t]);
                    assert(spec_resolve_abs(db, p) == resolve_in(db.root, seq![t]));
                } else {
                    assert(p =~= Seq::<char>::empty() + seq!['/'] + (gp + seq!['/'] + t));
                    lemma_split_concat(Seq::<char>::empty(), gp + seq!['/'] + t);
                    lemma_split_concat(gp, t);
                    lemma_split_single(t);
                    lemma_split_on_len(gp, '/');
                    let parts0 = split_on(p, '/');
                    assert(parts0 =~= seq![Seq::<char>::empty()] + (split_on(gp, '/') + seq![t]));
                    assert(parts0[0].len() == 0);
                    assert(parts0.drop_first() =~= split_on(gp, '/') + seq![t]);
                    let parts = split_on(gp, '/') + seq![t];
                    assert(split_on(gp, '/') == pre);
                    assert(pre.len() >= 1);
                    assert(parts[0] == pre[0]);
                    assert(parts[0] != db.root.name@);
                    assert(parts =~= pre + seq![t]);
                    assert(spec_resolve_abs(db, p) == resolve_in(db.root, pre + seq![t]));
                }
                assert(group_matches(g, gp, q, cs, em)[k] == own[k]);
                assert(fields_title(kp_fields_view(e)) == t);
                assert(fields_title(own[k].1) == t);
            },
            None => {
                assert(false);
            },
        }
    } else {
        lemma_forest_elem_resolvable(db, g, gp, pre, q, cs, em, 0, k - own.len());
        assert(group_matches(g, gp, q, cs, em)[k] == forest_matches(g, 0, gp, q, cs, em)[k
            - own.len()]);
    }
}

proof fn lemma_forest_elem_resolvable(
    db: KpDatabase,
    g: KpGroup,
    gp: Seq<char>,
    pre: Seq<Seq<char>>,
    q: Seq<char>,
    cs: bool,
    em: bool,
    ci: int,
    k: int,
)
    requires
        db_wf(db),
        at_position(db, g, gp, pre),
        0 <= ci,
        0 <= k < forest_matches(g, ci, gp, q, cs, em).len(),
    ensures
        spec_resolve_abs(db, forest_matches(g, ci, gp, q, cs, em)[k].0) matches Ok(fs)
            && fields_title(fs) == fields_title(forest_matches(g, ci, gp, q, cs, em)[k].1),
    decreases g, 0int, g.children.len() - ci,
{
    assert(ci < g.children.len());
    let c = g.children[ci];
    let cgp = group_display_path(gp, c.name@);
    let sub = tree_matches(c, gp, q, cs, em);
    assert(sub == group_matches(c, cgp, q, cs, em));
    reveal_strlit("/");
    assert("/"@ =~= seq!['/']);
    if k < sub.len() {
        let pre2 = pre.push(c.name@);
        lemma_first_child_skip(g.children@, c.name@, ci);
        assert(g.children@.skip(ci)[0] == c);
        assert(first_child(g.children@, c.name@) == Some(c));
        lemma_walk_extend(db.root, pre, g, c.name@, c);
        assert(name_ok(c.name@));
        assert(cgp.len() > 0);
        if gp.len() == 0 {
            assert(g == db.root);
            assert(cgp == c.name@);
            lemma_split_single(c.name@);
            assert(pre2 =~= seq![c.name@]);
            assert(split_on(cgp, '/') =~= pre2);
            assert(pre2[0] == c.name@);
            assert(c.name@ != db.root.name@);
        } else {
            assert(cgp =~= gp + seq!['/'] + c.name@);
            lemma_split_concat(gp, c.name@);
            lemma_split_single(c.name@);
            assert(split_on(cgp, '/') =~= pre + seq![c.name@]);
            assert(pre + seq![c.name@] =~= pre2);
            lemma_split_on_len(gp, '/');
            assert(pre.len() >= 1);
            assert(pre2[0] == pre[0]);
        }
        assert(at_position(db, c, cgp, pre2));
        lemma_group_elem_resolvable(db, c, cgp, pre2, q, cs, em, k);
        assert(forest_matches(g, ci, gp, q, cs, em)[k] == sub[k]);
    } else {
        lemma_forest_elem_resolvable(db, g, gp, pre, q, cs, em, ci + 1, k - sub.len());
        assert(forest_matches(g, ci, gp, q, cs, em)[k] == forest_matches(g, ci + 1, gp, q, cs, em)[
            k - sub.len()]);
    }
}

/// Absolute-path resolution is deterministic, hence idempotent: two
/// resolutions of the same path against the same unmodified store give
/// the same outcome, entry fields and all.
pub proof fn lemma_absolute_resolution_idempotent(
    db: KpDatabase,
    path: Seq<char>,
    r1: Result<Seq<(Seq<char>, Seq<char>)>, LookupError>,
    r2: Result<Seq<(Seq<char>, Seq<char>)>, LookupError>,
)
    requires
        r1 == spec_resolve_abs(db, path),
        r2 == spec_resolve_abs(db, path),
    ensures
        r1 == r2,
{
}

/// Fuzzy-search paths are reconstructible: in a well-formed store,
/// resolving the reported path of any fuzzy-search result in
/// absolute-path mode succeeds and yields an entry with the same
/// title.
pub proof fn lemma_search_paths_reconstructible(
    db: KpDatabase,
    query: Seq<char>,
    cs: bool,
    em: bool,
    k: int,
)
    requires
        db_wf(db),
        0 <= k < spec_search(db, query, cs, em).len(),
    ensures
        spec_resolve_abs(db, spec_search(db, query, cs, em)[k].0) matches Ok(fs) && fields_title(
            fs,
        ) == fields_title(spec_search(db, query, cs, em)[k].1),
{
    assert(at_position(db, db.root, Seq::empty(), Seq::<Seq<char>>::empty()));
    lemma_group_elem_resolvable(db, db.root, Seq::empty(), Seq::empty(), query, cs, em, k);
}

/// Root elision: a top-level matching entry is reported under `/`
/// followed by its title alone — the root group's name contributes no
/// segment, whatever that name is.
pub proof fn lemma_root_elision(db: KpDatabase, query: Seq<char>, cs: bool, em: bool, k: int)
    requires
        0 <= k < own_matches(db.root.entries@, Seq::empty(), query, cs, em).len(),
    ensures
        spec_search(db, query, cs, em)[k] == own_matches(
            db.root.entries@,
            Seq::empty(),
            query,
            cs,
            em,
        )[k],
        spec_search(db, query, cs, em)[k].0 == "/"@ + fields_title(
            spec_search(db, query, cs, em)[k].1,
        ),
{
    let own = own_matches(db.root.entries@, Seq::empty(), query, cs, em);
    assert(spec_search(db, query, cs, em)[k] == own[k]);
    lemma_own_matches_elem(db.root.entries@, Seq::empty(), query, cs, em, k);
    let j = choose|j: int|
        0 <= j < db.root.entries@.len() && spec_matches(
            kp_title(#[trigger] db.root.entries@[j]),
            query,
            cs,
            em,
        ) && own[k] == (
        entry_result_path(Seq::empty(), kp_title(db.root.entries@[j])),
        kp_fields_view(db.root.entries@[j]),
        );
    assert(own[k].0 == "/"@ + kp_title(db.root.entries@[j]));
    assert(fields_title(own[k].1) == kp_title(db.root.entries@[j]));
}

/// Every fuzzy-search result's entry has a title that matches the
/// query under the policy: the search reports matches and nothing
/// else.
pub proof fn lemma_search_results_match(
    db: KpDatabase,
    query: Seq<char>,
    cs: bool,
    em: bool,
    k: int,
)
    requires
        0 <= k < spec_search(db, query, cs, em).len(),
    ensures
        spec_matches(fields_title(spec_search(db, query, cs, em)[k].1), query, cs, em),
{
    lemma_group_elem_matches(db.root, Seq::empty(), query, cs, em, k);
}

proof fn lemma_group_elem_matches(g: KpGroup, gp: Seq<char>, q: Seq<char>, cs: bool, em: bool, k: int)
    requires
        0 <= k < group_matches(g, gp, q, cs, em).len(),
    ensures
        spec_matches(fields_title(group_matches(g, gp, q, cs, em)[k].1), q, cs, em),
    decreases g, 1int, 0int,
{
    let own = own_matches(g.entries@, gp, q, cs, em);
    if k < own.len() {
        lemma_own_matches_elem(g.entries@, gp, q, cs, em, k);
        assert(group_matches(g, gp, q, cs, em)[k] == own[k]);
    } else {
        lemma_forest_elem_matches(g, gp, q, cs, em, 0, k - own.len());
        assert(group_matches(g, gp, q, cs, em)[k] == forest_matches(g, 0, gp, q, cs, em)[k
            - own.len()]);
    }
}

proof fn lemma_forest_elem_matches(
    g: KpGroup,
    gp: Seq<char>,
    q: Seq<char>,
    cs: bool,
    em: bool,
    ci: int,
    k: int,
)
    requires
        0 <= ci,
        0 <= k < forest_matches(g, ci, gp, q, cs, em).len(),
    ensures
        spec_matches(fields_title(forest_matches(g, ci, gp, q, cs, em)[k].1), q, cs, em),
    decreases g, 0int, g.children.len() - ci,
{
    assert(ci < g.children.len());
    let c = g.children[ci];
    let cgp = group_display_path(gp, c.name@);
    let sub = tree_matches(c, gp, q, cs, em);
    assert(sub == group_matches(c, cgp, q, cs, em));
    if k < sub.len() {
        lemma_group_elem_matches(c, cgp, q, cs, em, k);
        assert(forest_matches(g, ci, gp, q, cs, em)[k] == sub[k]);
    } else {
        lemma_forest_elem_matches(g, gp, q, cs, em, ci + 1, k - sub.len());
        assert(forest_matches(g, ci, gp, q, cs, em)[k] == forest_matches(g, ci + 1, gp, q, cs, em)[
            k - sub.len()]);
    }
}

/// The number of matching entries in one group's own entry list.
pub open spec fn own_match_count(
    entries: Seq<KpEntry>,
    query: Seq<char>,
    cs: bool,
    em: bool,
) -> nat
    decreases entries.len(),
{
    if entries.len() == 0 {
        0nat
    } else {
        (if spec_matches(kp_title(entries[0]), query, cs, em) {
            1nat
        } else {
            0nat
        }) + own_match_count(entries.drop_first(), query, cs, em)
    }
}

/// The number of entries in the subtree at `g` whose title matches the
/// query under the policy.
pub open spec fn match_count(g: KpGroup, query: Seq<char>, cs: bool, em: bool) -> nat
    decreases g, 1int, 0int,
{
    own_match_count(g.entries@, query, cs, em) + forest_match_count(g, 0, query, cs, em)
}

/// The matching entries among the children of `g` from index `i` on.
pub open spec fn forest_match_count(g: KpGroup, i: int, query: Seq<char>, cs: bool, em: bool) -> nat
    decreases g, 0int, g.children.len() - i,
{
    if i < 0 || i >= g.children.len() {
        0nat
    } else {
        match_count(g.children[i as int], query, cs, em) + forest_match_count(
            g,
            i + 1,
            query,
            cs,
            em,
        )
    }
}

proof fn lemma_own_matches_count(es: Seq<KpEntry>, gp: Seq<char>, q: Seq<char>, cs: bool, em: bool)
    ensures
        own_matches(es, gp, q, cs, em).len() == own_match_count(es, q, cs, em),
    decreases es.len(),
{
    if es.len() > 0 {
        lemma_own_matches_count(es.drop_first(), gp, q, cs, em);
    }
}

proof fn lemma_group_matches_count(g: KpGroup, gp: Seq<char>, q: Seq<char>, cs: bool, em: bool)
    ensures
        group_matches(g, gp, q, cs, em).len() == match_count(g, q, cs, em),
    decreases g, 1int, 0int,
{
    lemma_own_matches_count(g.entries@, gp, q, cs, em);
    lemma_forest_matches_count(g, gp, q, cs, em, 0);
}

proof fn lemma_forest_matches_count(
    g: KpGroup,
    gp: Seq<char>,
    q: Seq<char>,
    cs: bool,
    em: bool,
    ci: int,
)
    requires
        0 <= ci,
    ensures
        forest_matches(g, ci, gp, q, cs, em).len() == forest_match_count(g, ci, q, cs, em),
    decreases g, 0int, g.children.len() - ci,
{
    if ci < g.children.len() {
        let c = g.children[ci];
        let cgp = group_display_path(gp, c.name@);
        assert(tree_matches(c, gp, q, cs, em) == group_matches(c, cgp, q, cs, em));
        lemma_group_matches_count(c, cgp, q, cs, em);
        lemma_forest_matches_count(g, gp, q, cs, em, ci + 1);
    }
}

/// The search is complete as well as sound: it reports exactly as many
/// results as the store holds entries whose title matches the query —
/// a store with exactly two matching entries yields exactly two
/// results, which the caller then reports as an ambiguous match.
pub proof fn lemma_search_count(db: KpDatabase, query: Seq<char>, cs: bool, em: bool)
    ensures
        spec_search(db, query, cs, em).len() == match_count(db.root, query, cs, em),
{
    lemma_group_matches_count(db.root, Seq::empty(), query, cs, em);
}

} // verus!
