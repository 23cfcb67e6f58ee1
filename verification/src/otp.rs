//! Time-based one-time codes: validating an `otpauth` URI, extracting
//! and cleaning its secret, and deriving the current six-digit code.
//! The URI must carry the `otpauth` scheme, the `totp` host and a
//! `secret` query parameter; anything else is an invalid configuration,
//! rejected before any decoding is attempted.

use vstd::prelude::*;
use crate::matching::ascii_eq_ic;
use crate::text::{chars_range, chars_range_eq_ic, chars_range_eq_str, find_ch, lemma_find_ch_at, lemma_find_ch_none, lemma_find_ch_range, str_chars, vec_find_char_in, vec_find_two_in};

verus! {

/// A failure while deriving a one-time code: a field value that is no
/// `otpauth`/`totp` URI with a secret, a secret that does not decode
/// to at least 16 bytes, or a system clock standing before the Unix
/// epoch.
#[derive(Debug, Clone, Copy, PartialEq, Eq, Structural)]
pub enum TotpError {
    InvalidTotpConfiguration,
    InvalidSecret,
    ClockUnavailable,
}

/// The prefix of a sequence up to the first occurrence of either of
/// two characters.
pub open spec fn take_until2(s: Seq<char>, c1: char, c2: char) -> Seq<char>
    decreases s.len(),
{
    if s.len() == 0 {
        Seq::empty()
    } else if s[0] == c1 || s[0] == c2 {
        Seq::empty()
    } else {
        seq![s[0]] + take_until2(s.drop_first(), c1, c2)
    }
}

proof fn lemma_take_until2_at(s: Seq<char>, c1: char, c2: char, i: int)
    requires
        0 <= i <= s.len(),
        forall|j: int| 0 <= j < i ==> s[j] != c1 && s[j] != c2,
        i < s.len() ==> s[i] == c1 || s[i] == c2,
    ensures
        take_until2(s, c1, c2) == s.take(i),
    decreases i,
{
    if i == 0 {
        assert(s.take(0) =~= Seq::<char>::empty());
    } else {
        assert(s.drop_first().take(i - 1) =~= s.take(i).drop_first());
        lemma_take_until2_at(s.drop_first(), c1, c2, i - 1);
        assert(seq![s[0]] + s.take(i).drop_first() =~= s.take(i));
    }
}

/// The key of one query parameter: what stands before its first `=`.
pub open spec fn param_key(p: Seq<char>) -> Seq<char> {
    match find_ch(p, '=') {
        Some(i) => p.take(i),
        None => p,
    }
}

/// The value of one query parameter: what stands after its first `=`,
/// or nothing when it has none.
pub open spec fn param_val(p: Seq<char>) -> Seq<char> {
    match find_ch(p, '=') {
        Some(i) => p.skip(i + 1),
        None => Seq::empty(),
    }
}

/// The value of the first `secret` parameter of a query string, whose
/// parameters are separated by `&`.
pub open spec fn find_secret_q(q: Seq<char>) -> Option<Seq<char>>
    decreases q.len(),
    via find_secret_q_dec
{
    let amp = find_ch(q, '&');
    let param = match amp {
        Some(i) => q.take(i),
        None => q,
    };
    if param_key(param) == "secret"@ {
        Some(param_val(param))
    } else {
        match amp {
            Some(i) => find_secret_q(q.skip(i + 1)),
            None => None,
        }
    }
}

#[via_fn]
proof fn find_secret_q_dec(q: Seq<char>) {
    lemma_find_ch_range(q, '&');
}

/// The secret carried by an `otpauth` URI: present exactly when the
/// scheme is `otpauth`, the host is `totp` (both compared without
/// regard to ASCII case, as a URI parser lowercases them), and the
/// query holds a `secret` parameter.
pub open spec fn spec_otp_secret(u: Seq<char>) -> Option<Seq<char>> {
    match find_ch(u, ':') {
        None => None,
        Some(i) => {
            if !ascii_eq_ic(u.take(i), "otpauth"@) {
                None
            } else if !(i + 3 <= u.len() && u[i + 1] == '/' && u[i + 2] == '/') {
                None
            } else {
                let hr = u.skip(i + 3);
                if !ascii_eq_ic(take_until2(hr, '/', '?'), "totp"@) {
                    None
                } else {
                    match find_ch(hr, '?') {
                        None => None,
                        Some(k) => find_secret_q(hr.skip(k + 1)),
                    }
                }
            }
        },
    }
}

/// A URI that configures a time-based one-time code.
pub open spec fn spec_valid_otpauth(u: Seq<char>) -> bool {
    spec_otp_secret(u) is Some
}

/// The value of a hexadecimal digit, or a negative number for any
/// other character.
pub open spec fn hex_val(c: char) -> int {
    if 48 <= c as int && c as int <= 57 {
        c as int - 48
    } else if 65 <= c as int && c as int <= 70 {
        c as int - 55
    } else if 97 <= c as int && c as int <= 102 {
        c as int - 87
    } else {
        -1
    }
}

/// A query value percent-decoded the way a form parser reads it: `+`
/// becomes a space, and `%` followed by two hexadecimal digits naming
/// an ASCII character becomes that character; anything else is kept as
/// it stands.
pub open spec fn pct_decode(s: Seq<char>) -> Seq<char>
    decreases s.len(),
{
    if s.len() == 0 {
        Seq::empty()
    } else if s[0] == '+' {
        seq![' '] + pct_decode(s.drop_first())
    } else if s[0] == '%' && s.len() >= 3 && hex_val(s[1]) >= 0 && hex_val(s[2]) >= 0 && hex_val(
        s[1],
    ) * 16 + hex_val(s[2]) < 128 {
        seq![((hex_val(s[1]) * 16 + hex_val(s[2])) as u8) as char] + pct_decode(s.skip(3))
    } else {
        seq![s[0]] + pct_decode(s.drop_first())
    }
}

/// The value of one hexadecimal digit, computed.
fn hex_digit_val(c: char) -> (r: Option<u8>)
    ensures
        match r {
            Some(v) => hex_val(c) == v as int && v < 16,
            None => hex_val(c) < 0,
        },
{
    let u = c as u32;
    if 48 <= u && u <= 57 {
        Some((u - 48) as u8)
    } else if 65 <= u && u <= 70 {
        Some((u - 55) as u8)
    } else if 97 <= u && u <= 102 {
        Some((u - 87) as u8)
    } else {
        None
    }
}

/// Percent-decode a query value.
fn percent_decode_chars(v: &Vec<char>) -> (r: Vec<char>)
    ensures
        r@ == pct_decode(v@),
{
    let mut r: Vec<char> = Vec::new();
    let mut i: usize = 0;
    proof {
        assert(v@.skip(0) =~= v@);
    }
    #[verifier::loop_isolation(false)]
    while i < v.len()
        invariant
            i <= v@.len(),
            pct_decode(v@) =~= r@ + pct_decode(v@.skip(i as int)),
        decreases v@.len() - i,
    {
        proof {
            assert(v@.skip(i as int)[0] == v@[i as int]);
            assert(v@.skip(i as int).drop_first() =~= v@.skip(i as int + 1));
        }
        let c = v[i];
        let ghost before = r@;
        if c == '+' {
            r.push(' ');
            proof {
                assert(r@ =~= before + seq![' ']);
            }
            i += 1;
        } else if c == '%' && v.len() - i >= 3 {
            proof {
                assert(v@.skip(i as int)[1] == v@[i as int + 1]);
                assert(v@.skip(i as int)[2] == v@[i as int + 2]);
            }
            let h1 = hex_digit_val(v[i + 1]);
            let h2 = hex_digit_val(v[i + 2]);
            match (h1, h2) {
                (Some(a), Some(b)) if (a as u32) * 16 + (b as u32) < 128 => {
                    let n: u8 = a * 16 + b;
                    r.push(n as char);
                    proof {
                        assert(v@.skip(i as int).skip(3) =~= v@.skip(i as int + 3));
                        assert(r@ =~= before + seq![
                            ((hex_val(v@[i as int + 1]) * 16 + hex_val(v@[i as int + 2])) as u8) as char,
                        ]);
                    }
                    i += 3;
                },
                _ => {
                    r.push(c);
                    proof {
                        assert(r@ =~= before + seq![v@[i as int]]);
                    }
                    i += 1;
                },
            }
        } else {
            r.push(c);
            proof {
                assert(r@ =~= before + seq![v@[i as int]]);
            }
            i += 1;
        }
    }
    proof {
        assert(v@.skip(v@.len() as int) =~= Seq::<char>::empty());
        assert(r@ + Seq::<char>::empty() =~= r@);
    }
    r
}

/// A secret with spaces and padding characters stripped.
pub open spec fn spec_clean(s: Seq<char>) -> Seq<char>
    decreases s.len(),
{
    if s.len() == 0 {
        Seq::empty()
    } else {
        let rest = spec_clean(s.drop_first());
        if s[0] == ' ' || s[0] == '=' {
            rest
        } else {
            seq![s[0]] + rest
        }
    }
}

/// The bytes that base32 decoding yields for a character sequence, or
/// nothing where the sequence is no base32 datum. The result depends
/// on the characters alone.
pub uninterp spec fn base32_decoded(s: Seq<char>) -> Option<Seq<u8>>;

/// Relies on totp_rs::Secret::to_bytes on an encoded secret: it
/// decodes the string as unpadded base32 and fails exactly on input
/// that is no base32 datum; the outcome depends on the characters
/// alone.
#[verifier::external_body]
fn decode_base32_secret(v: &Vec<char>) -> (r: Option<Vec<u8>>)
    ensures
        match r {
            Some(b) => base32_decoded(v@) == Some(b@),
            None => base32_decoded(v@) is None,
        },
{
    let s: String = v.iter().collect();
    totp_rs::Secret::Encoded(s).to_bytes().ok()
}

/// Relies on totp_rs::TOTP::new and TOTP::generate_current: built with
/// SHA-1, six digits, skew 1 and a 30-second step over a secret of at
/// least 16 bytes, construction succeeds, and a generated code is
/// exactly six characters, each an ASCII digit. Generation reads the
/// system clock and fails only when that clock stands before the Unix
/// epoch.
#[verifier::external_body]
fn totp_code_sha1_6(secret: Vec<u8>) -> (r: Option<String>)
    requires
        secret@.len() >= 16,
    ensures
        r matches Some(code) ==> code@.len() == 6 && (forall|i: int|
            0 <= i < code@.len() ==> 48 <= (#[trigger] code@[i]) as int <= 57),
{
    match totp_rs::TOTP::new(totp_rs::Algorithm::SHA1, 6, 1, 30, secret) {
        Ok(t) => t.generate_current().ok(),
        Err(_) => None,
    }
}

/// Extract the first `secret` parameter from the query region of `v`
/// starting at `p`.
#[verifier::rlimit(60)]
fn exec_find_secret(v: &Vec<char>, p: usize) -> (r: Option<Vec<char>>)
    requires
        p <= v@.len(),
    ensures
        match r {
            Some(s) => find_secret_q(v@.skip(p as int)) == Some(s@),
            None => find_secret_q(v@.skip(p as int)) is None,
        },
    decreases v@.len() - p,
{
    let ghost q = v@.skip(p as int);
    let amp = vec_find_char_in(v, '&', p, v.len());
    let end = match amp {
        Some(i) => i,
        None => v.len(),
    };
    proof {
        match amp {
            Some(i) => {
                assert(q[i - p] == v@[i as int]);
                lemma_find_ch_at(q, '&', i as int - p);
            },
            None => {
                lemma_find_ch_none(q, '&');
            },
        }
        assert(q.take(end - p) =~= v@.subrange(p as int, end as int));
    }
    let ghost param = q.take(end - p);
    let eq = vec_find_char_in(v, '=', p, end);
    let key_end = match eq {
        Some(i) => i,
        None => end,
    };
    proof {
        match eq {
            Some(i) => {
                assert(param[i - p] == v@[i as int]);
                lemma_find_ch_at(param, '=', i as int - p);
                assert(param.take(i - p) =~= v@.subrange(p as int, i as int));
            },
            None => {
                lemma_find_ch_none(param, '=');
            },
        }
        assert(param_key(param) =~= v@.subrange(p as int, key_end as int));
    }
    if chars_range_eq_str(v, p, key_end, "secret") {
        match eq {
            Some(i) => {
                let val = chars_range(v, i + 1, end);
                proof {
                    assert(param.skip(i + 1 - p) =~= v@.subrange(i + 1, end as int));
                }
                Some(val)
            },
            None => {
                proof {
                    assert(param_val(param) =~= Seq::<char>::empty());
                }
                Some(Vec::new())
            },
        }
    } else {
        match amp {
            Some(i) => {
                let r = exec_find_secret(v, i + 1);
                proof {
                    assert(q.skip(i + 1 - p) =~= v@.skip(i as int + 1));
                }
                r
            },
            None => None,
        }
    }
}

/// Extract the secret of an `otpauth` URI held in a character vector.
fn exec_otp_secret(v: &Vec<char>) -> (r: Option<Vec<char>>)
    ensures
        match r {
            Some(s) => spec_otp_secret(v@) == Some(s@),
            None => spec_otp_secret(v@) is None,
        },
{
    let colon = match vec_find_char_in(v, ':', 0, v.len()) {
        Some(i) => {
            proof {
                lemma_find_ch_at(v@, ':', i as int);
            }
            i
        },
        None => {
            proof {
                lemma_find_ch_none(v@, ':');
            }
            return None;
        },
    };
    proof {
        assert(v@.take(colon as int) =~= v@.subrange(0, colon as int));
    }
    if !chars_range_eq_ic(v, 0, colon, "otpauth") {
        return None;
    }
    if v.len() - colon < 3 || v[colon + 1] != '/' || v[colon + 2] != '/' {
        return None;
    }
    let hstart = colon + 3;
    let ghost hr = v@.skip(hstart as int);
    let host_end = match vec_find_two_in(v, '/', '?', hstart, v.len()) {
        Some(i) => i,
        None => v.len(),
    };
    proof {
        lemma_take_until2_at(hr, '/', '?', host_end as int - hstart);
        assert(hr.take(host_end as int - hstart) =~= v@.subrange(hstart as int, host_end as int));
    }
    if !chars_range_eq_ic(v, hstart, host_end, "totp") {
        return None;
    }
    let qmark = match vec_find_char_in(v, '?', hstart, v.len()) {
        Some(i) => {
            proof {
                assert(hr[i - hstart] == v@[i as int]);
                lemma_find_ch_at(hr, '?', i as int - hstart);
            }
            i
        },
        None => {
            proof {
                lemma_find_ch_none(hr, '?');
            }
            return None;
        },
    };
    let r = exec_find_secret(v, qmark + 1);
    proof {
        assert(hr.skip(qmark + 1 - hstart) =~= v@.skip(qmark as int + 1));
    }
    r
}

/// Strip spaces and padding characters from a secret.
fn strip_secret(v: &Vec<char>) -> (r: Vec<char>)
    ensures
        r@ == spec_clean(v@),
{
    let mut r: Vec<char> = Vec::new();
    let mut i: usize = 0;
    proof {
        assert(v@.skip(0) =~= v@);
    }
    #[verifier::loop_isolation(false)]
    while i < v.len()
        invariant
            i <= v@.len(),
            spec_clean(v@) =~= r@ + spec_clean(v@.skip(i as int)),
        decreases v@.len() - i,
    {
        proof {
            assert(v@.skip(i as int)[0] == v@[i as int]);
            assert(v@.skip(i as int).drop_first() =~= v@.skip(i as int + 1));
        }
        let c = v[i];
        if c != ' ' && c != '=' {
            let ghost before = r@;
            r.push(c);
            proof {
                assert(r@ =~= before + seq![v@[i as int]]);
            }
        }
        i += 1;
    }
    proof {
        assert(v@.skip(v@.len() as int) =~= Seq::<char>::empty());
        assert(r@ + Seq::<char>::empty() =~= r@);
    }
    r
}

/// The secret of a valid URI, percent-decoded and then cleaned;
/// meaningful only on valid URIs.
pub open spec fn spec_cleaned_secret(u: Seq<char>) -> Seq<char> {
    match spec_otp_secret(u) {
        Some(s) => spec_clean(pct_decode(s)),
        None => Seq::empty(),
    }
}

/// Derive the current time-based one-time code from an `otpauth` URI.
/// A value that is no `otpauth`/`totp` URI with a secret is rejected
/// as an invalid configuration before any decoding. The secret is
/// percent-decoded as a query value, stripped of spaces and padding,
/// and decoded as base32; one that does not yield at least 16 bytes is
/// rejected as invalid. Otherwise the code has six characters, each an
/// ASCII digit, and generation fails only when the system clock stands
/// before the Unix epoch.
pub fn generate_totp(otp_url: &str) -> (r: Result<String, TotpError>)
    ensures
        (r == Err::<String, TotpError>(TotpError::InvalidTotpConfiguration)) <==> !spec_valid_otpauth(
            otp_url@,
        ),
        spec_valid_otpauth(otp_url@) ==> ((r == Err::<String, TotpError>(TotpError::InvalidSecret))
            <==> (match base32_decoded(spec_cleaned_secret(otp_url@)) {
                Some(b) => b.len() < 16,
                None => true,
            })),
        r matches Ok(code) ==> code@.len() == 6 && (forall|i: int|
            0 <= i < code@.len() ==> 48 <= (#[trigger] code@[i]) as int <= 57),
{
    let v = str_chars(otp_url);
    let secret = match exec_otp_secret(&v) {
        Some(s) => s,
        None => {
            return Err(TotpError::InvalidTotpConfiguration);
        },
    };
    let decoded = percent_decode_chars(&secret);
    let cleaned = strip_secret(&decoded);
    let bytes = match decode_base32_secret(&cleaned) {
        Some(b) => b,
        None => {
            return Err(TotpError::InvalidSecret);
        },
    };
    if bytes.len() < 16 {
        return Err(TotpError::InvalidSecret);
    }
    match totp_code_sha1_6(bytes) {
        Some(code) => Ok(code),
        None => Err(TotpError::ClockUnavailable),
    }
}

} // verus!
