//! The vault-CLI store variant. Running the vault tool and its session
//! handling are the caller's affair; this backend holds the parsing of
//! the tool's item listing into unified entries, and the match policy
//! over item names.

use vstd::prelude::*;
use vstd::string::StrSliceExecFns;
use crate::backend::{Entry, SearchOptions, SpecEntry, StoreError};
use crate::matching::{is_substring_of, match_value, spec_matches};
use crate::text::{
    find_ch, find_sub, find_sub_in, lemma_find_ch_at, lemma_find_ch_none, lemma_find_sub_at,
    lemma_find_sub_none, lemma_find_sub_range, range_to_string, str_chars, trim_ch_back,
    trim_ch_back_bound, trim_ch_front, trim_ch_front_bound, trim_ws, trim_ws_bounds,
    vec_find_char_in,
};

verus! {

/// The vault-CLI backend: the session token handed over by the tool,
/// if one is known.
pub struct BitwardenBackend {
    pub session: Option<String>,
}

/// The text captured after a pattern, up to the next double quote.
pub open spec fn capture(s: Seq<char>, pat: Seq<char>) -> Option<Seq<char>> {
    match find_sub(s, pat) {
        None => None,
        Some(i) => {
            let rest = s.skip(i + pat.len());
            match find_ch(rest, '"') {
                Some(j) => Some(rest.take(j)),
                None => None,
            }
        },
    }
}

/// The entry one listed item parses to: the quoted fields captured
/// after their keys, and a path under `/bitwarden/` bearing the title.
pub open spec fn spec_parse_item(s: Seq<char>) -> SpecEntry {
    let title = match capture(s, "\"name\":\""@) {
        Some(t) => t,
        None => Seq::<char>::empty(),
    };
    SpecEntry {
        title: title,
        username: capture(s, "\"username\":\""@),
        password: capture(s, "\"password\":\""@),
        url: capture(s, "\"uri\":\""@),
        notes: capture(s, "\"notes\":\""@),
        custom_fields: Seq::empty(),
        path: "/bitwarden/"@ + title,
    }
}

/// An item braced on the left: `{` is prepended unless already there.
pub open spec fn with_open(x: Seq<char>) -> Seq<char> {
    if x.len() > 0 && x[0] == '{' {
        x
    } else {
        seq!['{'] + x
    }
}

/// An item braced on the right: `}` is appended unless already there.
pub open spec fn with_close(x: Seq<char>) -> Seq<char> {
    if x.len() > 0 && x.last() == '}' {
        x
    } else {
        x + seq!['}']
    }
}

/// An item with its braces restored after splitting.
pub open spec fn braced(x: Seq<char>) -> Seq<char> {
    with_close(with_open(x))
}

/// The items of a bracket-stripped listing: the pieces between the
/// `},{` separators.
pub open spec fn spec_bw_items(s: Seq<char>) -> Seq<Seq<char>>
    decreases s.len(),
    via bw_items_dec
{
    match find_sub(s, "},{"@) {
        Some(i) => seq![s.take(i)] + spec_bw_items(s.skip(i + "},{"@.len())),
        None => seq![s],
    }
}

#[via_fn]
proof fn bw_items_dec(s: Seq<char>) {
    lemma_find_sub_range(s, "},{"@);
    reveal_strlit("},{");
}

/// The entries a list of items parses to, keeping those whose title
/// matches the query under the policy.
pub open spec fn spec_items_entries(
    items: Seq<Seq<char>>,
    query: Seq<char>,
    case_sensitive: bool,
    exact_match: bool,
) -> Seq<SpecEntry>
    decreases items.len(),
{
    if items.len() == 0 {
        Seq::empty()
    } else {
        let e = spec_parse_item(braced(items[0]));
        (if spec_matches(e.title, query, case_sensitive, exact_match) {
            seq![e]
        } else {
            Seq::<SpecEntry>::empty()
        }) + spec_items_entries(items.drop_first(), query, case_sensitive, exact_match)
    }
}

/// The entries a whole listing parses to: nothing unless the trimmed
/// text is a bracketed, nonempty array; else each item between the
/// `},{` separators, braces restored, parsed and filtered by title.
pub open spec fn spec_parse_search(
    out: Seq<char>,
    query: Seq<char>,
    case_sensitive: bool,
    exact_match: bool,
) -> Seq<SpecEntry> {
    let t = trim_ws(out);
    if t.len() == 0 || t[0] != '[' {
        Seq::empty()
    } else {
        let inner = trim_ch_back(trim_ch_front(t, '['), ']');
        if inner.len() == 0 {
            Seq::empty()
        } else {
            spec_items_entries(spec_bw_items(inner), query, case_sensitive, exact_match)
        }
    }
}

/// Capture the text after a pattern within an index range, up to the
/// next double quote.
fn capture_range(v: &Vec<char>, from: usize, to: usize, pat: &str) -> (r: Option<String>)
    requires
        from <= to <= v@.len(),
    ensures
        match r {
            Some(s) => capture(v@.subrange(from as int, to as int), pat@) == Some(s@),
            None => capture(v@.subrange(from as int, to as int), pat@) is None,
        },
{
    let ghost w = v@.subrange(from as int, to as int);
    let plen = pat.unicode_len();
    match find_sub_in(v, from, to, pat) {
        None => {
            proof {
                assert forall|j: int|
                    0 <= j && j + pat@.len() <= w.len() implies #[trigger] w.subrange(
                    j,
                    j + pat@.len(),
                ) != pat@ by {
                    assert(w.subrange(j, j + pat@.len()) =~= v@.subrange(
                        from + j,
                        from + j + pat@.len(),
                    ));
                }
                lemma_find_sub_none(w, pat@);
            }
            None
        },
        Some(i) => {
            proof {
                assert forall|j: int| 0 <= j < i - from implies #[trigger] w.subrange(
                    j,
                    j + pat@.len(),
                ) != pat@ by {
                    assert(w.subrange(j, j + pat@.len()) =~= v@.subrange(
                        from + j,
                        from + j + pat@.len(),
                    ));
                }
                assert(w.subrange(i - from, i - from + pat@.len()) =~= v@.subrange(
                    i as int,
                    i + pat@.len(),
                ));
                lemma_find_sub_at(w, pat@, i as int - from);
            }
            let rstart = i + plen;
            let ghost rest = w.skip(i - from + pat@.len());
            proof {
                assert(rest =~= v@.subrange(rstart as int, to as int));
            }
            match vec_find_char_in(v, '"', rstart, to) {
                Some(j) => {
                    proof {
                        assert(rest[j - rstart] == v@[j as int]);
                        lemma_find_ch_at(rest, '"', j as int - rstart);
                        assert(rest.take(j - rstart) =~= v@.subrange(rstart as int, j as int));
                    }
                    Some(range_to_string(v, rstart, j))
                },
                None => {
                    proof {
                        lemma_find_ch_none(rest, '"');
                    }
                    None
                },
            }
        },
    }
}

/// Parse the characters of one item into an entry.
fn parse_item_chars(v: &Vec<char>) -> (e: Entry)
    ensures
        e@ == spec_parse_item(v@),
{
    proof {
        assert(v@.subrange(0, v@.len() as int) =~= v@);
    }
    let title = match capture_range(v, 0, v.len(), "\"name\":\"") {
        Some(t) => t,
        None => String::new(),
    };
    let mut path = String::new();
    path.append("/bitwarden/");
    path.append(title.as_str());
    let mut entry = Entry::new(title, path);
    entry.username = capture_range(v, 0, v.len(), "\"username\":\"");
    entry.password = capture_range(v, 0, v.len(), "\"password\":\"");
    entry.url = capture_range(v, 0, v.len(), "\"uri\":\"");
    entry.notes = capture_range(v, 0, v.len(), "\"notes\":\"");
    proof {
        assert(entry@.custom_fields =~= Seq::<(Seq<char>, Seq<char>)>::empty());
    }
    entry
}

/// The characters of the item between `from` and `to`, braces
/// restored.
fn braced_item(v: &Vec<char>, from: usize, to: usize) -> (r: Vec<char>)
    requires
        from <= to <= v@.len(),
    ensures
        r@ == braced(v@.subrange(from as int, to as int)),
{
    let ghost w = v@.subrange(from as int, to as int);
    let mut item: Vec<char> = Vec::new();
    if from == to || v[from] != '{' {
        item.push('{');
    }
    let mut i: usize = from;
    let ghost opened = item@;
    proof {
        assert(opened + w.take(0) =~= opened);
    }
    #[verifier::loop_isolation(false)]
    while i < to
        invariant
            from <= i <= to,
            item@ =~= opened + w.take(i - from),
        decreases to - i,
    {
        item.push(v[i]);
        proof {
            assert(w.take(i + 1 - from) =~= w.take(i - from) + seq![v@[i as int]]);
        }
        i += 1;
    }
    proof {
        assert(w.take(to - from) =~= w);
        assert(item@ =~= with_open(w));
    }
    if item.len() == 0 || item[item.len() - 1] != '}' {
        let ghost before = item@;
        item.push('}');
        proof {
            assert(before.len() > 0);
            assert(before.last() == before[before.len() - 1]);
            assert(item@ =~= before + seq!['}']);
        }
    }
    item
}

impl BitwardenBackend {
    /// The session token that a status report yields: the value of the
    /// environment, kept only when the tool reports itself unlocked.
    pub fn session_from_status(status_output: &str, env_session: Option<String>) -> (r: Option<
        String,
    >)
        ensures
            crate::backend::opt_view(r) == (if is_substring_of(
                "\"status\":\"unlocked\""@,
                status_output@,
            ) {
                crate::backend::opt_view(env_session)
            } else {
                None::<Seq<char>>
            }),
    {
        if crate::matching::contains_substring(status_output, "\"status\":\"unlocked\"") {
            env_session
        } else {
            None
        }
    }

    /// Parse one listed item into an entry.
    pub fn parse_item(&self, json_str: &str) -> (r: Result<Entry, StoreError>)
        ensures
            r matches Ok(e) && e@ == spec_parse_item(json_str@),
    {
        let v = str_chars(json_str);
        Ok(parse_item_chars(&v))
    }

    /// Evaluate the match policy on a candidate value.
    pub fn matches(&self, value: &str, pattern: &str, options: &SearchOptions) -> (r: bool)
        ensures
            r == spec_matches(value@, pattern@, options.case_sensitive, options.exact_match),
    {
        match_value(value, pattern, options.case_sensitive, options.exact_match)
    }

    /// Parse a whole item listing: each item between the separators,
    /// braces restored, parsed, and kept where its title matches the
    /// query under the policy.
    pub fn parse_search_results(
        &self,
        output: &str,
        query: &str,
        options: &SearchOptions,
    ) -> (r: Vec<Entry>)
        ensures
            crate::backend::keepass::entry_views(r@) == spec_parse_search(
                output@,
                query@,
                options.case_sensitive,
                options.exact_match,
            ),
    {
        let v = str_chars(output);
        proof {
            assert(v@.subrange(0, v@.len() as int) =~= v@);
        }
        let (a, b) = trim_ws_bounds(&v, 0, v.len());
        let ghost t = trim_ws(v@);
        let mut results: Vec<Entry> = Vec::new();
        proof {
            assert(crate::backend::keepass::entry_views(Seq::<Entry>::empty())
                =~= Seq::<SpecEntry>::empty());
        }
        if a == b {
            return results;
        }
        proof {
            assert(t[0] == v@[a as int]);
        }
        if v[a] != '[' {
            return results;
        }
        let c = trim_ch_front_bound(&v, a, b, '[');
        let d = trim_ch_back_bound(&v, c, b, ']');
        proof {
            assert(v@.subrange(c as int, d as int) == trim_ch_back(trim_ch_front(t, '['), ']'));
        }
        if c == d {
            return results;
        }
        collect_items(&v, c, d, query, options, &mut results);
        proof {
            assert(Seq::<SpecEntry>::empty() + spec_items_entries(
                spec_bw_items(v@.subrange(c as int, d as int)),
                query@,
                options.case_sensitive,
                options.exact_match,
            ) =~= spec_items_entries(
                spec_bw_items(v@.subrange(c as int, d as int)),
                query@,
                options.case_sensitive,
                options.exact_match,
            ));
        }
        results
    }

    /// Extract one named field from an entry, failing when the field
    /// has no value on this entry.
    pub fn get_field(&self, entry: &Entry, field_name: &str) -> (r: Result<String, StoreError>)
        ensures
            match r {
                Ok(v) => crate::backend::spec_get_field(entry@, field_name@) == Some(v@),
                Err(e) => crate::backend::spec_get_field(entry@, field_name@) is None
                    && e is FieldNotFound,
            },
    {
        match entry.get_field(field_name) {
            Some(v) => Ok(v),
            None => Err(StoreError::FieldNotFound),
        }
    }
}

/// Parse and filter the items of the region between `p` and `end`,
/// appending the kept entries.
fn collect_items(
    v: &Vec<char>,
    p: usize,
    end: usize,
    query: &str,
    options: &SearchOptions,
    results: &mut Vec<Entry>,
)
    requires
        p <= end <= v@.len(),
    ensures
        crate::backend::keepass::entry_views(final(results)@) == crate::backend::keepass::entry_views(
            old(results)@,
        ) + spec_items_entries(
            spec_bw_items(v@.subrange(p as int, end as int)),
            query@,
            options.case_sensitive,
            options.exact_match,
        ),
    decreases end - p,
{
    let ghost w = v@.subrange(p as int, end as int);
    let plen = "},{".unicode_len();
    let sep = find_sub_in(v, p, end, "},{");
    let item_end = match sep {
        Some(i) => i,
        None => end,
    };
    proof {
        match sep {
            Some(i) => {
                assert forall|j: int| 0 <= j < i - p implies #[trigger] w.subrange(
                    j,
                    j + "},{"@.len(),
                ) != "},{"@ by {
                    assert(w.subrange(j, j + "},{"@.len()) =~= v@.subrange(
                        p + j,
                        p + j + "},{"@.len(),
                    ));
                }
                assert(w.subrange(i - p, i - p + "},{"@.len()) =~= v@.subrange(
                    i as int,
                    i + "},{"@.len(),
                ));
                lemma_find_sub_at(w, "},{"@, i as int - p);
            },
            None => {
                assert forall|j: int|
                    0 <= j && j + "},{"@.len() <= w.len() implies #[trigger] w.subrange(
                    j,
                    j + "},{"@.len(),
                ) != "},{"@ by {
                    assert(w.subrange(j, j + "},{"@.len()) =~= v@.subrange(
                        p + j,
                        p + j + "},{"@.len(),
                    ));
                }
                lemma_find_sub_none(w, "},{"@);
            },
        }
        assert(w.take(item_end - p) =~= v@.subrange(p as int, item_end as int));
    }
    let item = braced_item(v, p, item_end);
    let entry = parse_item_chars(&item);
    let ghost ev = entry@;
    let ghost head = (if spec_matches(ev.title, query@, options.case_sensitive, options.exact_match) {
        seq![ev]
    } else {
        Seq::<SpecEntry>::empty()
    });
    let ghost before = results@;
    if match_value(entry.title.as_str(), query, options.case_sensitive, options.exact_match) {
        results.push(entry);
        proof {
            assert(crate::backend::keepass::entry_views(results@)
                =~= crate::backend::keepass::entry_views(before) + head);
        }
    } else {
        proof {
            assert(crate::backend::keepass::entry_views(results@)
                =~= crate::backend::keepass::entry_views(before) + head);
        }
    }
    let ghost items = spec_bw_items(w);
    match sep {
        Some(i) => {
            proof {
                reveal_strlit("},{");
            }
            collect_items(v, i + plen, end, query, options, results);
            proof {
                assert(w.skip(i - p + "},{"@.len()) =~= v@.subrange(i + plen, end as int));
                assert(items[0] == w.take(i - p));
                assert(items.drop_first() =~= spec_bw_items(w.skip(i - p + "},{"@.len())));
                assert(braced(items[0]) == item@);
                assert(spec_items_entries(items, query@, options.case_sensitive, options.exact_match)
                    =~= head + spec_items_entries(
                    items.drop_first(),
                    query@,
                    options.case_sensitive,
                    options.exact_match,
                ));
                assert(crate::backend::keepass::entry_views(results@)
                    =~= crate::backend::keepass::entry_views(before) + spec_items_entries(
                    items,
                    query@,
                    options.case_sensitive,
                    options.exact_match,
                ));
            }
        },
        None => {
            proof {
                assert(items =~= seq![w]);
                assert(items[0] == w);
                assert(w.take(end - p) =~= w);
                assert(braced(items[0]) == item@);
                assert(items.drop_first() =~= Seq::<Seq<char>>::empty());
                assert(spec_items_entries(
                    Seq::<Seq<char>>::empty(),
                    query@,
                    options.case_sensitive,
                    options.exact_match,
                ) =~= Seq::<SpecEntry>::empty());
                assert(spec_items_entries(items, query@, options.case_sensitive, options.exact_match)
                    =~= head + Seq::<SpecEntry>::empty());
                assert(crate::backend::keepass::entry_views(results@)
                    =~= crate::backend::keepass::entry_views(before) + spec_items_entries(
                    items,
                    query@,
                    options.case_sensitive,
                    options.exact_match,
                ));
            }
        },
    }
}

} // verus!
