//! The OS-keychain store variant. Talking to the keychain tool is the
//! caller's affair; this backend holds the parsing of the tool's
//! output into unified entries, and the match policy over item names.

use vstd::prelude::*;
use crate::backend::{Entry, SearchOptions, SpecEntry};
use crate::matching::{is_substring_of, match_value, spec_matches};
use crate::text::{
    find_ch, find_sub, find_sub_in, lemma_find_ch_at, lemma_find_ch_none, lemma_find_ch_range,
    lemma_find_sub_at, lemma_find_sub_none, range_contains, range_to_string, str_chars,
    trim_ch_back, trim_ch_front, trim_ws, trim_ws_bounds, trim_ch_bounds, vec_find_char_in,
};

verus! {

/// The OS-keychain backend.
pub struct KeychainBackend;

/// A string trimmed of every leading and trailing double quote.
pub open spec fn trim_quotes(s: Seq<char>) -> Seq<char> {
    trim_ch_back(trim_ch_front(s, '"'), '"')
}

/// The value carried by one line of keychain-tool output: what stands
/// after the first `=`, trimmed of whitespace and of double quotes.
pub open spec fn spec_extract_value(line: Seq<char>) -> Option<Seq<char>> {
    match find_ch(line, '=') {
        Some(i) => Some(trim_quotes(trim_ws(line.skip(i + 1)))),
        None => None,
    }
}

/// The first line of a text that contains a pattern.
pub open spec fn first_line_containing(text: Seq<char>, needle: Seq<char>) -> Option<Seq<char>>
    decreases text.len(),
    via flc_dec
{
    let nl = find_ch(text, '\n');
    let line = match nl {
        Some(i) => text.take(i),
        None => text,
    };
    if is_substring_of(needle, line) {
        Some(line)
    } else {
        match nl {
            Some(i) => first_line_containing(text.skip(i + 1), needle),
            None => None,
        }
    }
}

#[via_fn]
proof fn flc_dec(text: Seq<char>, needle: Seq<char>) {
    lemma_find_ch_range(text, '\n');
}

/// The password carried by a password-report line: what stands between
/// the first `password:` and the next one (or the end), trimmed of
/// whitespace and of double quotes.
pub open spec fn spec_password_part(line: Seq<char>) -> Option<Seq<char>> {
    match find_sub(line, "password:"@) {
        None => None,
        Some(i) => {
            let rest = line.skip(i + "password:"@.len());
            match find_sub(rest, "password:"@) {
                Some(j) => Some(trim_quotes(trim_ws(rest.take(j)))),
                None => Some(trim_quotes(trim_ws(rest))),
            }
        },
    }
}

/// The entry that one keychain-tool report parses to: the service name
/// as the title where one is reported (the query otherwise), the
/// account as the user name, the reported password, and a path under
/// `/keychain/`.
pub open spec fn spec_keychain_entry(
    query: Seq<char>,
    out: Seq<char>,
    err: Seq<char>,
) -> SpecEntry {
    SpecEntry {
        title: match first_line_containing(out, "\"svce\""@) {
            Some(l) => match spec_extract_value(l) {
                Some(v) => v,
                None => query,
            },
            None => query,
        },
        username: match first_line_containing(out, "\"acct\""@) {
            Some(l) => spec_extract_value(l),
            None => None,
        },
        password: match first_line_containing(err, "password:"@) {
            Some(l) => spec_password_part(l),
            None => None,
        },
        url: None,
        notes: None,
        custom_fields: Seq::empty(),
        path: "/keychain/"@ + query,
    }
}

/// The bounds of the first line of `v` from `p` on that contains the
/// needle.
fn find_line_with(v: &Vec<char>, p: usize, needle: &str) -> (r: Option<(usize, usize)>)
    requires
        p <= v@.len(),
    ensures
        match r {
            Some(ab) => p <= ab.0 <= ab.1 <= v@.len() && first_line_containing(
                v@.skip(p as int),
                needle@,
            ) == Some(v@.subrange(ab.0 as int, ab.1 as int)),
            None => first_line_containing(v@.skip(p as int), needle@) is None,
        },
    decreases v@.len() - p,
{
    let ghost q = v@.skip(p as int);
    let nl = vec_find_char_in(v, '\n', p, v.len());
    let end = match nl {
        Some(i) => i,
        None => v.len(),
    };
    proof {
        match nl {
            Some(i) => {
                assert(q[i - p] == v@[i as int]);
                lemma_find_ch_at(q, '\n', i as int - p);
            },
            None => {
                lemma_find_ch_none(q, '\n');
            },
        }
        assert(q.take(end - p) =~= v@.subrange(p as int, end as int));
    }
    if range_contains(v, p, end, needle) {
        Some((p, end))
    } else {
        match nl {
            Some(i) => {
                let r = find_line_with(v, i + 1, needle);
                proof {
                    assert(q.skip(i + 1 - p) =~= v@.skip(i as int + 1));
                }
                r
            },
            None => None,
        }
    }
}

/// Extract the value of the line held in `v` between `a` and `b`.
fn extract_value_range(v: &Vec<char>, a: usize, b: usize) -> (r: Option<String>)
    requires
        a <= b <= v@.len(),
    ensures
        match r {
            Some(s) => spec_extract_value(v@.subrange(a as int, b as int)) == Some(s@),
            None => spec_extract_value(v@.subrange(a as int, b as int)) is None,
        },
{
    let ghost line = v@.subrange(a as int, b as int);
    match vec_find_char_in(v, '=', a, b) {
        Some(i) => {
            proof {
                assert(line[i - a] == v@[i as int]);
                lemma_find_ch_at(line, '=', i as int - a);
                assert(line.skip(i + 1 - a) =~= v@.subrange(i as int + 1, b as int));
            }
            let (t0, t1) = trim_ws_bounds(v, i + 1, b);
            let (u0, u1) = trim_ch_bounds(v, t0, t1, '"');
            Some(range_to_string(v, u0, u1))
        },
        None => {
            proof {
                lemma_find_ch_none(line, '=');
            }
            None
        },
    }
}

impl KeychainBackend {
    /// Extract the value from one line of keychain-tool output: what
    /// stands after the first `=`, trimmed of whitespace and quotes.
    pub fn extract_value(line: &str) -> (r: Option<String>)
        ensures
            match r {
                Some(s) => spec_extract_value(line@) == Some(s@),
                None => spec_extract_value(line@) is None,
            },
    {
        let v = str_chars(line);
        proof {
            assert(v@.subrange(0, v@.len() as int) =~= line@);
        }
        extract_value_range(&v, 0, v.len())
    }

    /// Evaluate the match policy on a candidate value.
    pub fn matches(&self, value: &str, pattern: &str, options: &SearchOptions) -> (r: bool)
        ensures
            r == spec_matches(value@, pattern@, options.case_sensitive, options.exact_match),
    {
        match_value(value, pattern, options.case_sensitive, options.exact_match)
    }

    /// Parse one keychain-tool report into at most one entry: nothing
    /// when the tool failed and reported nothing, else the entry the
    /// report describes.
    pub fn parse_search_output(query: &str, stdout: &str, stderr: &str, success: bool) -> (r: Option<
        Entry,
    >)
        ensures
            (!success && stderr@.len() == 0) ==> r is None,
            (success || stderr@.len() > 0) ==> (r matches Some(e) && e@ == spec_keychain_entry(
                query@,
                stdout@,
                stderr@,
            )),
    {
        if !success && stderr.unicode_len() == 0 {
            return None;
        }
        let mut path = String::new();
        path.append("/keychain/");
        path.append(query);
        let mut entry = Entry::new(query.to_owned(), path);

        let out = str_chars(stdout);
        let err = str_chars(stderr);
        proof {
            assert(out@.skip(0) =~= stdout@);
            assert(err@.skip(0) =~= stderr@);
        }

        if let Some((a, b)) = find_line_with(&out, 0, "\"acct\"") {
            entry.username = extract_value_range(&out, a, b);
        }

        if let Some((a, b)) = find_line_with(&err, 0, "password:") {
            entry.password = password_part_range(&err, a, b);
        }

        if let Some((a, b)) = find_line_with(&out, 0, "\"svce\"") {
            if let Some(service) = extract_value_range(&out, a, b) {
                entry.title = service;
            }
        }
        proof {
            assert(entry@.custom_fields =~= Seq::<(Seq<char>, Seq<char>)>::empty());
        }
        Some(entry)
    }

    /// Every service name reported by a keychain listing.
    pub fn parse_service_names(stdout: &str) -> (r: Vec<String>)
        ensures
            r.deep_view() == spec_service_names(stdout@),
    {
        let v = str_chars(stdout);
        let mut out: Vec<String> = Vec::new();
        proof {
            assert(v@.skip(0) =~= stdout@);
        }
        collect_service_names(&v, 0, &mut out);
        proof {
            assert(Seq::<Seq<char>>::empty() + spec_service_names(stdout@) =~= spec_service_names(
                stdout@,
            ));
        }
        out
    }

    /// Keep the items whose name matches the query under the policy.
    pub fn filter_matching(items: &Vec<String>, query: &str, options: &SearchOptions) -> (r: Vec<
        String,
    >)
        ensures
            r.deep_view() == spec_filter_matching(
                items.deep_view(),
                query@,
                options.case_sensitive,
                options.exact_match,
            ),
    {
        let ghost all = items.deep_view();
        let mut r: Vec<String> = Vec::new();
        let mut i: usize = 0;
        proof {
            assert(all.skip(0) =~= all);
        }
        #[verifier::loop_isolation(false)]
        while i < items.len()
            invariant
                i <= items@.len(),
                spec_filter_matching(all, query@, options.case_sensitive, options.exact_match)
                    =~= r.deep_view() + spec_filter_matching(
                    all.skip(i as int),
                    query@,
                    options.case_sensitive,
                    options.exact_match,
                ),
            decreases items@.len() - i,
        {
            proof {
                assert(all.skip(i as int)[0] == all[i as int]);
                assert(all.skip(i as int).drop_first() =~= all.skip(i as int + 1));
            }
            if match_value(items[i].as_str(), query, options.case_sensitive, options.exact_match) {
                let ghost before = r.deep_view();
                r.push(items[i].clone());
                proof {
                    assert(r.deep_view() =~= before + seq![all[i as int]]);
                }
            }
            i += 1;
        }
        proof {
            assert(all.skip(all.len() as int) =~= Seq::<Seq<char>>::empty());
            assert(r.deep_view() + Seq::<Seq<char>>::empty() =~= r.deep_view());
        }
        r
    }

    /// Extract one named field from an entry, failing when the field
    /// has no value on this entry.
    pub fn get_field(&self, entry: &Entry, field_name: &str) -> (r: Result<
        String,
        crate::backend::StoreError,
    >)
        ensures
            match r {
                Ok(v) => crate::backend::spec_get_field(entry@, field_name@) == Some(v@),
                Err(e) => crate::backend::spec_get_field(entry@, field_name@) is None
                    && e is FieldNotFound,
            },
    {
        match entry.get_field(field_name) {
            Some(v) => Ok(v),
            None => Err(crate::backend::StoreError::FieldNotFound),
        }
    }
}

/// The trimmed password between the first `password:` of the line held
/// between `a` and `b` and the next occurrence or the end.
fn password_part_range(v: &Vec<char>, a: usize, b: usize) -> (r: Option<String>)
    requires
        a <= b <= v@.len(),
    ensures
        match r {
            Some(s) => spec_password_part(v@.subrange(a as int, b as int)) == Some(s@),
            None => spec_password_part(v@.subrange(a as int, b as int)) is None,
        },
{
    let ghost line = v@.subrange(a as int, b as int);
    let plen = "password:".unicode_len();
    match find_sub_in(v, a, b, "password:") {
        None => {
            proof {
                assert forall|j: int|
                    0 <= j && j + "password:"@.len() <= line.len() implies #[trigger] line.subrange(
                    j,
                    j + "password:"@.len(),
                ) != "password:"@ by {
                    assert(line.subrange(j, j + "password:"@.len()) =~= v@.subrange(
                        a + j,
                        a + j + "password:"@.len(),
                    ));
                }
                lemma_find_sub_none(line, "password:"@);
            }
            None
        },
        Some(i) => {
            proof {
                assert forall|j: int| 0 <= j < i - a implies #[trigger] line.subrange(
                    j,
                    j + "password:"@.len(),
                ) != "password:"@ by {
                    assert(line.subrange(j, j + "password:"@.len()) =~= v@.subrange(
                        a + j,
                        a + j + "password:"@.len(),
                    ));
                }
                assert(line.subrange(i - a, i - a + "password:"@.len()) =~= v@.subrange(
                    i as int,
                    i + "password:"@.len(),
                ));
                lemma_find_sub_at(line, "password:"@, i as int - a);
            }
            let rstart = i + plen;
            let ghost rest = line.skip(i - a + "password:"@.len());
            proof {
                assert(rest =~= v@.subrange(rstart as int, b as int));
            }
            let rend: usize = match find_sub_in(v, rstart, b, "password:") {
                Some(j) => {
                    proof {
                        assert forall|t: int| 0 <= t < j - rstart implies #[trigger] rest.subrange(
                            t,
                            t + "password:"@.len(),
                        ) != "password:"@ by {
                            assert(rest.subrange(t, t + "password:"@.len()) =~= v@.subrange(
                                rstart + t,
                                rstart + t + "password:"@.len(),
                            ));
                        }
                        assert(rest.subrange(j - rstart, j - rstart + "password:"@.len())
                            =~= v@.subrange(j as int, j + "password:"@.len()));
                        lemma_find_sub_at(rest, "password:"@, j as int - rstart);
                        assert(rest.take(j - rstart) =~= v@.subrange(rstart as int, j as int));
                    }
                    j
                },
                None => {
                    proof {
                        assert forall|t: int|
                            0 <= t && t + "password:"@.len() <= rest.len() implies #[trigger] rest.subrange(
                            t,
                            t + "password:"@.len(),
                        ) != "password:"@ by {
                            assert(rest.subrange(t, t + "password:"@.len()) =~= v@.subrange(
                                rstart + t,
                                rstart + t + "password:"@.len(),
                            ));
                        }
                        lemma_find_sub_none(rest, "password:"@);
                        assert(rest.take(rest.len() as int) =~= rest);
                        assert(rest =~= v@.subrange(rstart as int, b as int));
                    }
                    b
                },
            };
            let (t0, t1) = trim_ws_bounds(v, rstart, rend);
            let (u0, u1) = trim_ch_bounds(v, t0, t1, '"');
            Some(range_to_string(v, u0, u1))
        },
    }
}

/// Every service name that a keychain listing reports: the extracted
/// value of each line naming a service.
pub open spec fn spec_service_names(text: Seq<char>) -> Seq<Seq<char>>
    decreases text.len(),
    via ssn_dec
{
    let nl = find_ch(text, '\n');
    let line = match nl {
        Some(i) => text.take(i),
        None => text,
    };
    let line_part = if is_substring_of("\"svce\""@, line) {
        match spec_extract_value(line) {
            Some(x) => seq![x],
            None => Seq::<Seq<char>>::empty(),
        }
    } else {
        Seq::<Seq<char>>::empty()
    };
    line_part + (match nl {
        Some(i) => spec_service_names(text.skip(i + 1)),
        None => Seq::<Seq<char>>::empty(),
    })
}

#[via_fn]
proof fn ssn_dec(text: Seq<char>) {
    lemma_find_ch_range(text, '\n');
}

/// The items whose name matches the query under the policy, in order.
pub open spec fn spec_filter_matching(
    items: Seq<Seq<char>>,
    query: Seq<char>,
    case_sensitive: bool,
    exact_match: bool,
) -> Seq<Seq<char>>
    decreases items.len(),
{
    if items.len() == 0 {
        Seq::empty()
    } else {
        (if spec_matches(items[0], query, case_sensitive, exact_match) {
            seq![items[0]]
        } else {
            Seq::<Seq<char>>::empty()
        }) + spec_filter_matching(items.drop_first(), query, case_sensitive, exact_match)
    }
}

fn collect_service_names(v: &Vec<char>, p: usize, out: &mut Vec<String>)
    requires
        p <= v@.len(),
    ensures
        final(out).deep_view() == old(out).deep_view() + spec_service_names(v@.skip(p as int)),
    decreases v@.len() - p,
{
    let ghost q = v@.skip(p as int);
    let nl = vec_find_char_in(v, '\n', p, v.len());
    let end = match nl {
        Some(i) => i,
        None => v.len(),
    };
    proof {
        match nl {
            Some(i) => {
                assert(q[i - p] == v@[i as int]);
                lemma_find_ch_at(q, '\n', i as int - p);
            },
            None => {
                lemma_find_ch_none(q, '\n');
            },
        }
        assert(q.take(end - p) =~= v@.subrange(p as int, end as int));
    }
    let ghost line = q.take(end - p);
    let ghost line_part = (if is_substring_of("\"svce\""@, line) {
        match spec_extract_value(line) {
            Some(x) => seq![x],
            None => Seq::<Seq<char>>::empty(),
        }
    } else {
        Seq::<Seq<char>>::empty()
    });
    let ghost before = out.deep_view();
    if range_contains(v, p, end, "\"svce\"") {
        match extract_value_range(v, p, end) {
            Some(x) => {
                out.push(x);
                proof {
                    assert(out.deep_view() =~= before + line_part);
                }
            },
            None => {
                proof {
                    assert(out.deep_view() =~= before + line_part);
                }
            },
        }
    } else {
        proof {
            assert(out.deep_view() =~= before + line_part);
        }
    }
    match nl {
        Some(i) => {
            collect_service_names(v, i + 1, out);
            proof {
                assert(q.skip(i + 1 - p) =~= v@.skip(i as int + 1));
                assert(out.deep_view() =~= before + (line_part + spec_service_names(
                    v@.skip(i as int + 1),
                )));
            }
        },
        None => {
            proof {
                assert(out.deep_view() =~= before + (line_part + Seq::<Seq<char>>::empty()));
            }
        },
    }
}

} // verus!
