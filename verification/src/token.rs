//! Signed bearer tokens: a verified JWT compact serialization (base64url
//! and a strict JSON claims codec) around a trusted HMAC-SHA256 primitive.
//!
//! A token is `base64url(header) . base64url(claims) . signature`, with the
//! fixed HS256 header and a claims object of exactly the six fields the
//! gateway uses. Creation and verification are verified down to the byte
//! level; only the HMAC computation itself is trusted.

use vstd::prelude::*;

use crate::errors::ErrorKind;
use crate::models::User;
use crate::strutil::{all_digits, dec_of, dec_value, is_digit};
use vstd::string::StringSliceAdditionalSpecFns;

verus! {

/// The base64url digit for a 6-bit value.
pub open spec fn b64_char(v: u8) -> u8 {
    if v < 26 {
        (0x41 + v) as u8  // 'A'..'Z'
    } else if v < 52 {
        (0x61 + (v - 26)) as u8  // 'a'..'z'
    } else if v < 62 {
        (0x30 + (v - 52)) as u8  // '0'..'9'
    } else if v == 62 {
        0x2D  // '-'
    } else {
        0x5F  // '_'
    }
}

/// The 6-bit value of a base64url digit, or `None` for any other byte.
pub open spec fn b64_val(c: u8) -> Option<u8> {
    if 0x41 <= c <= 0x5A {
        Some((c - 0x41) as u8)
    } else if 0x61 <= c <= 0x7A {
        Some((26 + (c - 0x61)) as u8)
    } else if 0x30 <= c <= 0x39 {
        Some((52 + (c - 0x30)) as u8)
    } else if c == 0x2D {
        Some(62u8)
    } else if c == 0x5F {
        Some(63u8)
    } else {
        None
    }
}

/// Encoding and decoding the digits are inverse.
proof fn lemma_b64_char_val(v: u8)
    requires
        v < 64,
    ensures
        b64_val(b64_char(v)) == Some(v),
{
}

/// The base64url (unpadded) encoding of a byte sequence, built three bytes
/// (four digits) at a time from the front.
pub open spec fn b64_of(s: Seq<u8>) -> Seq<u8>
    decreases s.len(),
{
    if s.len() == 0 {
        Seq::empty()
    } else if s.len() == 1 {
        let b0 = s[0];
        seq![b64_char(b0 / 4), b64_char(((b0 % 4) * 16) as u8)]
    } else if s.len() == 2 {
        let b0 = s[0];
        let b1 = s[1];
        seq![
            b64_char(b0 / 4),
            b64_char(((b0 % 4) * 16 + b1 / 16) as u8),
            b64_char(((b1 % 16) * 4) as u8),
        ]
    } else {
        let b0 = s[0];
        let b1 = s[1];
        let b2 = s[2];
        seq![
            b64_char(b0 / 4),
            b64_char(((b0 % 4) * 16 + b1 / 16) as u8),
            b64_char(((b1 % 16) * 4 + b2 / 64) as u8),
            b64_char((b2 % 64) as u8),
        ] + b64_of(s.skip(3))
    }
}

/// Appends the base64url digits of `s` to `out`.
#[verifier::spinoff_prover]
#[verifier::rlimit(100)]
pub fn b64_encode_onto(s: &[u8], out: &mut Vec<u8>)
    ensures
        final(out)@ == old(out)@ + b64_of(s@),
{
    let n = s.len();
    let mut i: usize = 0;
    proof {
        assert(s@.skip(0) =~= s@);
    }
    while n - i >= 3
        invariant
            n == s@.len(),
            0 <= i <= n,
            i % 3 == 0,
            old(out)@ + b64_of(s@) == out@ + b64_of(s@.skip(i as int)),
        decreases n - i,
    {
        let b0 = s[i];
        let b1 = s[i + 1];
        let b2 = s[i + 2];
        out.push(b64_digit(b0 / 4));
        out.push(b64_digit((b0 % 4) * 16 + b1 / 16));
        out.push(b64_digit((b1 % 16) * 4 + b2 / 64));
        out.push(b64_digit(b2 % 64));
        proof {
            let rest = s@.skip(i as int);
            assert(rest[0] == b0 && rest[1] == b1 && rest[2] == b2);
            assert(rest.skip(3) =~= s@.skip(i + 3));
        }
        i = i + 3;
    }
    if n - i == 1 {
        let b0 = s[i];
        out.push(b64_digit(b0 / 4));
        out.push(b64_digit((b0 % 4) * 16));
        proof {
            let rest = s@.skip(i as int);
            assert(rest.len() == 1 && rest[0] == b0);
        }
    } else if n - i == 2 {
        let b0 = s[i];
        let b1 = s[i + 1];
        out.push(b64_digit(b0 / 4));
        out.push(b64_digit((b0 % 4) * 16 + b1 / 16));
        out.push(b64_digit((b1 % 16) * 4));
        proof {
            let rest = s@.skip(i as int);
            assert(rest.len() == 2 && rest[0] == b0 && rest[1] == b1);
        }
    } else {
        proof {
            assert(s@.skip(i as int) =~= Seq::<u8>::empty());
        }
    }
}

/// The base64url digit of a 6-bit value.
fn b64_digit(v: u8) -> (r: u8)
    requires
        v < 64,
    ensures
        r == b64_char(v),
{
    if v < 26 {
        0x41 + v
    } else if v < 52 {
        0x61 + (v - 26)
    } else if v < 62 {
        0x30 + (v - 52)
    } else if v == 62 {
        0x2D
    } else {
        0x5F
    }
}

/// The strict base64url decoding: digits only, no padding, a final group
/// of 2 or 3 digits with zeroed trailing bits. `None` on anything else.
pub open spec fn b64_back(s: Seq<u8>) -> Option<Seq<u8>>
    decreases s.len(),
{
    if s.len() == 0 {
        Some(Seq::empty())
    } else if s.len() == 1 {
        None
    } else if s.len() == 2 {
        match (b64_val(s[0]), b64_val(s[1])) {
            (Some(v0), Some(v1)) => if v1 % 16 == 0 {
                Some(seq![(v0 * 4 + v1 / 16) as u8])
            } else {
                None
            },
            _ => None,
        }
    } else if s.len() == 3 {
        match (b64_val(s[0]), b64_val(s[1]), b64_val(s[2])) {
            (Some(v0), Some(v1), Some(v2)) => if v2 % 4 == 0 {
                Some(seq![(v0 * 4 + v1 / 16) as u8, ((v1 % 16) * 16 + v2 / 4) as u8])
            } else {
                None
            },
            _ => None,
        }
    } else {
        match (b64_val(s[0]), b64_val(s[1]), b64_val(s[2]), b64_val(s[3])) {
            (Some(v0), Some(v1), Some(v2), Some(v3)) => match b64_back(s.skip(4)) {
                Some(rest) => Some(
                    seq![
                        (v0 * 4 + v1 / 16) as u8,
                        ((v1 % 16) * 16 + v2 / 4) as u8,
                        ((v2 % 4) * 64 + v3) as u8,
                    ] + rest,
                ),
                None => None,
            },
            _ => None,
        }
    }
}

/// The 6-bit value of a base64url digit byte.
fn b64_value(c: u8) -> (r: Option<u8>)
    ensures
        r == b64_val(c),
        r is Some ==> r->0 < 64,
{
    if c >= 0x41 && c <= 0x5A {
        Some(c - 0x41)
    } else if c >= 0x61 && c <= 0x7A {
        Some(26 + (c - 0x61))
    } else if c >= 0x30 && c <= 0x39 {
        Some(52 + (c - 0x30))
    } else if c == 0x2D {
        Some(62)
    } else if c == 0x5F {
        Some(63)
    } else {
        None
    }
}

/// Decodes a strict base64url digit sequence.
#[verifier::spinoff_prover]
#[verifier::rlimit(100)]
pub fn b64_decode(s: &[u8]) -> (r: Option<Vec<u8>>)
    ensures
        match r {
            Some(v) => b64_back(s@) == Some(v@),
            None => b64_back(s@) is None,
        },
{
    let n = s.len();
    if n % 4 == 1 {
        proof {
            lemma_b64_back_len1_mod(s@);
        }
        return None;
    }
    let mut out: Vec<u8> = Vec::new();
    let mut i: usize = 0;
    proof {
        assert(s@.skip(0) =~= s@);
    }
    while n - i >= 4
        invariant
            n == s@.len(),
            0 <= i <= n,
            i % 4 == 0,
            match b64_back(s@) {
                Some(w) => b64_back(s@.skip(i as int)) matches Some(rest) && w == out@ + rest,
                None => b64_back(s@.skip(i as int)) is None,
            },
        decreases n - i,
    {
        let ghost pre = out@;
        let v0 = match b64_value(s[i]) {
            Some(v) => v,
            None => {
                return None;
            },
        };
        let v1 = match b64_value(s[i + 1]) {
            Some(v) => v,
            None => {
                return None;
            },
        };
        let v2 = match b64_value(s[i + 2]) {
            Some(v) => v,
            None => {
                return None;
            },
        };
        let v3 = match b64_value(s[i + 3]) {
            Some(v) => v,
            None => {
                return None;
            },
        };
        out.push(v0 * 4 + v1 / 16);
        out.push((v1 % 16) * 16 + v2 / 4);
        out.push((v2 % 4) * 64 + v3);
        proof {
            let rest = s@.skip(i as int);
            assert(rest.len() >= 4);
            assert(rest[0] == s@[i as int] && rest[1] == s@[i + 1] && rest[2] == s@[i + 2]
                && rest[3] == s@[i + 3]);
            assert(rest.skip(4) =~= s@.skip(i + 4));
            assert(out@ =~= pre + seq![
                (v0 * 4 + v1 / 16) as u8,
                ((v1 % 16) * 16 + v2 / 4) as u8,
                ((v2 % 4) * 64 + v3) as u8,
            ]);
            if b64_back(s@.skip(i + 4)) is Some {
                assert(pre + (seq![
                    (v0 * 4 + v1 / 16) as u8,
                    ((v1 % 16) * 16 + v2 / 4) as u8,
                    ((v2 % 4) * 64 + v3) as u8,
                ] + b64_back(s@.skip(i + 4))->0) =~= out@ + b64_back(s@.skip(i + 4))->0);
            }
        }
        i = i + 4;
    }
    let rem = n - i;
    if rem == 0 {
        proof {
            assert(s@.skip(i as int) =~= Seq::<u8>::empty());
            if b64_back(s@) is Some {
                assert(b64_back(s@)->0 =~= out@);
            }
        }
        return Some(out);
    }
    if rem == 2 {
        let v0 = match b64_value(s[i]) {
            Some(v) => v,
            None => {
                return None;
            },
        };
        let v1 = match b64_value(s[i + 1]) {
            Some(v) => v,
            None => {
                return None;
            },
        };
        if v1 % 16 != 0 {
            return None;
        }
        let ghost pre = out@;
        out.push(v0 * 4 + v1 / 16);
        proof {
            let rest = s@.skip(i as int);
            assert(rest.len() == 2 && rest[0] == s@[i as int] && rest[1] == s@[i + 1]);
            if b64_back(s@) is Some {
                assert(b64_back(s@)->0 =~= out@);
            }
        }
        return Some(out);
    }
    if rem == 3 {
        let v0 = match b64_value(s[i]) {
            Some(v) => v,
            None => {
                return None;
            },
        };
        let v1 = match b64_value(s[i + 1]) {
            Some(v) => v,
            None => {
                return None;
            },
        };
        let v2 = match b64_value(s[i + 2]) {
            Some(v) => v,
            None => {
                return None;
            },
        };
        if v2 % 4 != 0 {
            return None;
        }
        let ghost pre = out@;
        out.push(v0 * 4 + v1 / 16);
        out.push((v1 % 16) * 16 + v2 / 4);
        proof {
            let rest = s@.skip(i as int);
            assert(rest.len() == 3 && rest[0] == s@[i as int] && rest[1] == s@[i + 1] && rest[2]
                == s@[i + 2]);
            if b64_back(s@) is Some {
                assert(b64_back(s@)->0 =~= out@);
            }
        }
        return Some(out);
    }
    proof {
        // a remainder of 1 was excluded up front
        assert(rem != 1) by {
            assert(n % 4 != 1);
            assert(i % 4 == 0);
        }
        assert(false);
    }
    None
}

/// A sequence whose length is 1 modulo 4 is not a base64url encoding.
proof fn lemma_b64_back_len1_mod(s: Seq<u8>)
    requires
        s.len() % 4 == 1,
    ensures
        b64_back(s) is None,
    decreases s.len(),
{
    if s.len() > 4 {
        lemma_b64_back_len1_mod(s.skip(4));
    }
}

/// Decoding inverts encoding: base64url round trip.
#[verifier::spinoff_prover]
#[verifier::rlimit(100)]
pub proof fn lemma_b64_round_trip(s: Seq<u8>)
    ensures
        b64_back(b64_of(s)) == Some(s),
    decreases s.len(),
{
    if s.len() == 0 {
        assert(b64_of(s) =~= Seq::<u8>::empty());
        assert(b64_back(b64_of(s)) == Some(Seq::<u8>::empty()));
        assert(s =~= Seq::<u8>::empty());
    } else if s.len() == 1 {
        let b0 = s[0];
        lemma_b64_char_val(b0 / 4);
        lemma_b64_char_val(((b0 % 4) * 16) as u8);
        assert(b64_back(b64_of(s))->0 =~= s);
    } else if s.len() == 2 {
        let b0 = s[0];
        let b1 = s[1];
        lemma_b64_char_val(b0 / 4);
        lemma_b64_char_val(((b0 % 4) * 16 + b1 / 16) as u8);
        lemma_b64_char_val(((b1 % 16) * 4) as u8);
        assert(b64_back(b64_of(s))->0 =~= s);
    } else {
        let b0 = s[0];
        let b1 = s[1];
        let b2 = s[2];
        lemma_b64_char_val(b0 / 4);
        lemma_b64_char_val(((b0 % 4) * 16 + b1 / 16) as u8);
        lemma_b64_char_val(((b1 % 16) * 4 + b2 / 64) as u8);
        lemma_b64_char_val((b2 % 64) as u8);
        lemma_b64_round_trip(s.skip(3));
        let e = b64_of(s);
        assert(e.len() >= 4);
        assert(e.skip(4) =~= b64_of(s.skip(3)));
        assert(b64_back(e)->0 =~= s);
    }
}

/// The lowercase hex digit of a 4-bit value.
pub open spec fn hex_digit(v: u8) -> u8 {
    if v < 10 {
        (0x30 + v) as u8
    } else {
        (0x61 + (v - 10)) as u8
    }
}

/// The 4-bit value of a lowercase hex digit.
pub open spec fn hex_val(c: u8) -> Option<u8> {
    if 0x30 <= c <= 0x39 {
        Some((c - 0x30) as u8)
    } else if 0x61 <= c <= 0x66 {
        Some((10 + (c - 0x61)) as u8)
    } else {
        None
    }
}

/// The JSON escape of one byte inside a string literal: quote and
/// backslash get a backslash, control bytes a `\u00xx` sequence, the rest
/// stand as they are.
pub open spec fn esc_byte(b: u8) -> Seq<u8> {
    if b == 0x22 {
        seq![0x5Cu8, 0x22u8]
    } else if b == 0x5C {
        seq![0x5Cu8, 0x5Cu8]
    } else if b < 0x20 {
        seq![0x5Cu8, 0x75u8, 0x30u8, 0x30u8, hex_digit(b / 16), hex_digit(b % 16)]
    } else {
        seq![b]
    }
}

/// The escaped form of a byte string's content.
pub open spec fn jstr(s: Seq<u8>) -> Seq<u8>
    decreases s.len(),
{
    if s.len() == 0 {
        Seq::empty()
    } else {
        esc_byte(s[0]) + jstr(s.skip(1))
    }
}

/// Appends the escaped content of `s` to `out`.
pub fn push_jstr(s: &[u8], out: &mut Vec<u8>)
    ensures
        final(out)@ == old(out)@ + jstr(s@),
{
    let n = s.len();
    let mut i: usize = 0;
    proof {
        assert(s@.skip(0) =~= s@);
    }
    while i < n
        invariant
            n == s@.len(),
            0 <= i <= n,
            old(out)@ + jstr(s@) == out@ + jstr(s@.skip(i as int)),
        decreases n - i,
    {
        let b = s[i];
        proof {
            assert(s@.skip(i as int)[0] == b);
            assert(s@.skip(i as int).skip(1) =~= s@.skip(i + 1));
        }
        if b == 0x22 {
            out.push(0x5C);
            out.push(0x22);
        } else if b == 0x5C {
            out.push(0x5C);
            out.push(0x5C);
        } else if b < 0x20 {
            out.push(0x5C);
            out.push(0x75);
            out.push(0x30);
            out.push(0x30);
            out.push(hex_digit_of(b / 16));
            out.push(hex_digit_of(b % 16));
        } else {
            out.push(b);
        }
        proof {
            assert(out@ + jstr(s@.skip(i + 1)) =~= old(out)@ + jstr(s@));
        }
        i = i + 1;
    }
    proof {
        assert(s@.skip(n as int) =~= Seq::<u8>::empty());
        assert(final(out)@ =~= old(out)@ + jstr(s@));
    }
}

/// The lowercase hex digit of a 4-bit value.
fn hex_digit_of(v: u8) -> (r: u8)
    requires
        v < 16,
    ensures
        r == hex_digit(v),
{
    if v < 10 {
        0x30 + v
    } else {
        0x61 + (v - 10)
    }
}

/// Reads an escaped string from position 0 of `b` up to and including its
/// closing quote: the decoded content and the number of bytes consumed.
/// Only the escapes the writer emits are accepted.
pub open spec fn parse_jstr(b: Seq<u8>) -> Option<(Seq<u8>, int)>
    decreases b.len(),
{
    if b.len() == 0 {
        None
    } else if b[0] == 0x22 {
        Some((Seq::empty(), 1))
    } else if b[0] == 0x5C {
        if b.len() < 2 {
            None
        } else if b[1] == 0x22 || b[1] == 0x5C {
            match parse_jstr(b.skip(2)) {
                Some((c, k)) => Some((seq![b[1]] + c, k + 2)),
                None => None,
            }
        } else if b[1] == 0x75 {
            if b.len() < 6 {
                None
            } else if b[2] == 0x30 && b[3] == 0x30 && hex_val(b[4]) is Some && hex_val(b[5])
                is Some && hex_val(b[4])->0 * 16 + hex_val(b[5])->0 < 0x20 {
                match parse_jstr(b.skip(6)) {
                    Some((c, k)) => Some(
                        (seq![(hex_val(b[4])->0 * 16 + hex_val(b[5])->0) as u8] + c, k + 6),
                    ),
                    None => None,
                }
            } else {
                None
            }
        } else {
            None
        }
    } else if b[0] < 0x20 {
        None
    } else {
        match parse_jstr(b.skip(1)) {
            Some((c, k)) => Some((seq![b[0]] + c, k + 1)),
            None => None,
        }
    }
}

/// The 4-bit value of a lowercase hex digit byte.
fn hex_value(c: u8) -> (r: Option<u8>)
    ensures
        r == hex_val(c),
        r is Some ==> r->0 < 16,
{
    if c >= 0x30 && c <= 0x39 {
        Some(c - 0x30)
    } else if c >= 0x61 && c <= 0x66 {
        Some(10 + (c - 0x61))
    } else {
        None
    }
}

/// Reads an escaped string starting at `from` in `b`, consuming its
/// closing quote.
pub fn parse_jstring(b: &[u8], from: usize) -> (r: Option<(Vec<u8>, usize)>)
    requires
        from <= b@.len(),
    ensures
        match r {
            Some(p) => from < p.1 <= b@.len() && parse_jstr(b@.skip(from as int)) == Some(
                (p.0@, p.1 - from),
            ),
            None => parse_jstr(b@.skip(from as int)) is None,
        },
{
    let n = b.len();
    let mut acc: Vec<u8> = Vec::new();
    let mut i: usize = from;
    loop
        invariant
            n == b@.len(),
            from <= i <= n,
            match parse_jstr(b@.skip(i as int)) {
                Some(p) => parse_jstr(b@.skip(from as int)) == Some(
                    (acc@ + p.0, i - from + p.1),
                ),
                None => parse_jstr(b@.skip(from as int)) is None,
            },
        decreases n - i,
    {
        if i >= n {
            proof {
                assert(b@.skip(i as int) =~= Seq::<u8>::empty());
            }
            return None;
        }
        let c = b[i];
        proof {
            assert(b@.skip(i as int)[0] == c);
        }
        if c == 0x22 {
            proof {
                assert(acc@ + Seq::<u8>::empty() =~= acc@);
            }
            return Some((acc, i + 1));
        }
        if c == 0x5C {
            if i + 1 >= n {
                proof {
                    assert(b@.skip(i as int).len() < 2);
                }
                return None;
            }
            let e = b[i + 1];
            proof {
                assert(b@.skip(i as int)[1] == e);
                assert(b@.skip(i as int).skip(2) =~= b@.skip(i + 2));
            }
            if e == 0x22 || e == 0x5C {
                let ghost pre = acc@;
                acc.push(e);
                proof {
                    if parse_jstr(b@.skip(i + 2)) is Some {
                        let p = parse_jstr(b@.skip(i + 2))->0;
                        assert(acc@ + p.0 =~= pre + (seq![e] + p.0));
                    }
                }
                i = i + 2;
            } else if e == 0x75 {
                if n - i < 6 {
                    proof {
                        assert(b@.skip(i as int).len() < 6);
                    }
                    return None;
                }
                proof {
                    assert(b@.skip(i as int)[2] == b@[i + 2]);
                    assert(b@.skip(i as int)[3] == b@[i + 3]);
                    assert(b@.skip(i as int)[4] == b@[i + 4]);
                    assert(b@.skip(i as int)[5] == b@[i + 5]);
                    assert(b@.skip(i as int).skip(6) =~= b@.skip(i + 6));
                }
                if b[i + 2] != 0x30 || b[i + 3] != 0x30 {
                    return None;
                }
                let hi = match hex_value(b[i + 4]) {
                    Some(v) => v,
                    None => {
                        return None;
                    },
                };
                let lo = match hex_value(b[i + 5]) {
                    Some(v) => v,
                    None => {
                        return None;
                    },
                };
                let v = hi * 16 + lo;
                if v >= 0x20 {
                    return None;
                }
                let ghost pre = acc@;
                acc.push(v);
                proof {
                    if parse_jstr(b@.skip(i + 6)) is Some {
                        let p = parse_jstr(b@.skip(i + 6))->0;
                        assert(acc@ + p.0 =~= pre + (seq![v] + p.0));
                    }
                }
                i = i + 6;
            } else {
                return None;
            }
        } else if c < 0x20 {
            return None;
        } else {
            proof {
                assert(b@.skip(i as int).skip(1) =~= b@.skip(i + 1));
            }
            let ghost pre = acc@;
            acc.push(c);
            proof {
                if parse_jstr(b@.skip(i + 1)) is Some {
                    let p = parse_jstr(b@.skip(i + 1))->0;
                    assert(acc@ + p.0 =~= pre + (seq![c] + p.0));
                }
            }
            i = i + 1;
        }
    }
}

/// Parsing inverts escaping: reading the escaped content followed by a
/// closing quote gives the content back and stops right after the quote.
pub proof fn lemma_jstr_round_trip(s: Seq<u8>, rest: Seq<u8>)
    ensures
        parse_jstr(jstr(s) + seq![0x22u8] + rest) == Some((s, jstr(s).len() as int + 1)),
    decreases s.len(),
{
    let buf = jstr(s) + seq![0x22u8] + rest;
    if s.len() == 0 {
        assert(jstr(s) =~= Seq::<u8>::empty());
        assert(buf[0] == 0x22);
        assert(parse_jstr(buf) == Some((Seq::<u8>::empty(), 1int)));
        assert(s =~= Seq::<u8>::empty());
    } else {
        lemma_jstr_round_trip(s.skip(1), rest);
        let e = esc_byte(s[0]);
        assert(jstr(s) =~= e + jstr(s.skip(1)));
        assert(buf.skip(e.len() as int) =~= jstr(s.skip(1)) + seq![0x22u8] + rest);
        let b0 = s[0];
        if b0 == 0x22 {
            assert(buf[0] == 0x5C && buf[1] == 0x22);
            assert(buf.skip(2) =~= jstr(s.skip(1)) + seq![0x22u8] + rest);
            assert(seq![b0] + s.skip(1) =~= s);
        } else if b0 == 0x5C {
            assert(buf[0] == 0x5C && buf[1] == 0x5C);
            assert(buf.skip(2) =~= jstr(s.skip(1)) + seq![0x22u8] + rest);
            assert(seq![b0] + s.skip(1) =~= s);
        } else if b0 < 0x20 {
            assert(buf[0] == 0x5C && buf[1] == 0x75 && buf[2] == 0x30 && buf[3] == 0x30);
            assert(buf[4] == hex_digit(b0 / 16) && buf[5] == hex_digit(b0 % 16));
            assert(hex_val(hex_digit(b0 / 16)) == Some((b0 / 16) as u8));
            assert(hex_val(hex_digit(b0 % 16)) == Some((b0 % 16) as u8));
            assert((b0 / 16) * 16 + b0 % 16 == b0);
            assert(buf.skip(6) =~= jstr(s.skip(1)) + seq![0x22u8] + rest);
            assert(seq![b0] + s.skip(1) =~= s);
        } else {
            assert(buf[0] == b0);
            assert(buf.skip(1) =~= jstr(s.skip(1)) + seq![0x22u8] + rest);
            assert(seq![b0] + s.skip(1) =~= s);
        }
    }
}

/// How many leading decimal digits `b` has.
pub open spec fn digits_prefix(b: Seq<u8>) -> int
    decreases b.len(),
{
    if b.len() == 0 || !is_digit(b[0]) {
        0
    } else {
        1 + digits_prefix(b.skip(1))
    }
}

/// Reads a canonical decimal `u64` from position 0 of `b`: one or more
/// digits, no leading zero (except the number 0 itself), fitting in 64
/// bits.
pub open spec fn parse_dec(b: Seq<u8>) -> Option<(u64, int)> {
    let n = digits_prefix(b);
    if n >= 1 && (b[0] != 0x30 || n == 1) && dec_value(b.take(n)) <= u64::MAX {
        Some((dec_value(b.take(n)) as u64, n))
    } else {
        None
    }
}

/// Reads a canonical decimal number starting at `from` in `b`.
pub fn parse_decimal(b: &[u8], from: usize) -> (r: Option<(u64, usize)>)
    requires
        from <= b@.len(),
    ensures
        match r {
            Some(p) => from < p.1 <= b@.len() && parse_dec(b@.skip(from as int)) == Some(
                (p.0, p.1 - from),
            ),
            None => parse_dec(b@.skip(from as int)) is None,
        },
{
    let n = b.len();
    let mut i: usize = from;
    while i < n && b[i] >= 0x30 && b[i] <= 0x39
        invariant
            n == b@.len(),
            from <= i <= n,
            forall|j: int| from <= j < i ==> is_digit(#[trigger] b@[j]),
            digits_prefix(b@.skip(from as int)) == i - from + digits_prefix(b@.skip(i as int)),
        decreases n - i,
    {
        proof {
            assert(b@.skip(i as int)[0] == b@[i as int]);
            assert(b@.skip(i as int).skip(1) =~= b@.skip(i + 1));
        }
        i = i + 1;
    }
    proof {
        if i < n {
            assert(b@.skip(i as int)[0] == b@[i as int]);
            assert(!is_digit(b@[i as int]));
        } else {
            assert(b@.skip(i as int).len() == 0);
        }
        assert(digits_prefix(b@.skip(i as int)) == 0);
        assert(b@.skip(from as int).take(i - from) =~= b@.subrange(from as int, i as int));
    }
    if i == from {
        return None;
    }
    if b[from] == 0x30 && i - from > 1 {
        return None;
    }
    let v = match crate::strutil::parse_u64_dec(crate::token::subslice(b, from, i)) {
        Some(v) => v,
        None => {
            return None;
        },
    };
    Some((v, i))
}

/// A sub-slice by index range.
pub fn subslice<'a>(b: &'a [u8], from: usize, to: usize) -> (r: &'a [u8])
    requires
        0 <= from <= to <= b@.len(),
    ensures
        r@ == b@.subrange(from as int, to as int),
{
    &b[from..to]
}

/// Reading a canonically written number gives it back: the digits of `v`
/// followed by anything that is not a digit.
pub proof fn lemma_dec_round_trip(v: u64, rest: Seq<u8>)
    requires
        rest.len() == 0 || !is_digit(rest[0]),
    ensures
        parse_dec(dec_of(v as nat) + rest) == Some((v, dec_of(v as nat).len() as int)),
{
    crate::strutil::lemma_dec_of_value(v as nat);
    let d = dec_of(v as nat);
    let buf = d + rest;
    lemma_digits_prefix_concat(d, rest);
    assert(buf.take(d.len() as int) =~= d);
    lemma_dec_of_leading(v as nat);
    assert(buf[0] == d[0]);
}

/// The digit prefix of digits-then-nondigit is exactly the digits.
proof fn lemma_digits_prefix_concat(d: Seq<u8>, rest: Seq<u8>)
    requires
        all_digits(d),
        rest.len() == 0 || !is_digit(rest[0]),
    ensures
        digits_prefix(d + rest) == d.len(),
    decreases d.len(),
{
    let buf = d + rest;
    if d.len() == 0 {
        assert(buf =~= rest);
    } else {
        assert(buf[0] == d[0]);
        assert(buf.skip(1) =~= d.skip(1) + rest);
        assert(all_digits(d.skip(1))) by {
            assert(forall|i: int| 0 <= i < d.len() - 1 ==> d.skip(1)[i] == d[i + 1]);
        }
        lemma_digits_prefix_concat(d.skip(1), rest);
    }
}

/// Canonical digits have no redundant leading zero.
proof fn lemma_dec_of_leading(n: nat)
    ensures
        dec_of(n).len() == 1 || dec_of(n)[0] != 0x30,
    decreases n,
{
    if n >= 10 {
        lemma_dec_of_leading(n / 10);
        lemma_dec_of_first(n);
    }
}

/// The first digit of a multi-digit number is the first digit of its
/// quotient by ten.
proof fn lemma_dec_of_first(n: nat)
    requires
        n >= 10,
    ensures
        dec_of(n)[0] == dec_of(n / 10)[0],
        dec_of(n / 10)[0] != 0x30 || dec_of(n / 10).len() > 1,
    decreases n,
{
    crate::strutil::lemma_dec_of_value(n / 10);
    if n / 10 >= 10 {
        lemma_dec_of_first(n / 10);
    } else {
        assert(1 <= n / 10 <= 9);
    }
}

/// The HMAC-SHA256 signature of `message` under `key`, in base64url form,
/// as the signing library returns it.
pub uninterp spec fn hs256_sig(message: Seq<u8>, key: Seq<u8>) -> Seq<char>;

/// Relies on jsonwebtoken::crypto::sign with HS256: it computes the HMAC
/// and base64url-encodes it, deterministically from message and key, and
/// cannot fail for an HMAC algorithm.
#[verifier::external_body]
fn hs256_sign(message: &[u8], key: &[u8]) -> (r: String)
    ensures
        r@ == hs256_sig(message@, key@),
{
    jsonwebtoken::crypto::sign(
        message,
        &jsonwebtoken::EncodingKey::from_secret(key),
        jsonwebtoken::Algorithm::HS256,
    ).expect("HMAC signing does not fail")
}

/// Relies on jsonwebtoken::crypto::verify with HS256: it re-signs the
/// message and compares the strings in constant time, so it accepts
/// exactly the signature that `sign` produces. A non-UTF-8 candidate can
/// never equal that ASCII signature.
#[verifier::external_body]
fn hs256_check(signature: &[u8], message: &[u8], key: &[u8]) -> (r: bool)
    ensures
        r == (signature@ == vstd::utf8::encode_utf8(hs256_sig(message@, key@))),
{
    match core::str::from_utf8(signature) {
        Ok(sig) => jsonwebtoken::crypto::verify(
            sig,
            message,
            &jsonwebtoken::DecodingKey::from_secret(key),
            jsonwebtoken::Algorithm::HS256,
        ).expect("HMAC verification does not fail"),
        Err(_) => false,
    }
}

/// Relies on String::from_utf8: ASCII bytes are valid UTF-8, one character
/// per byte, and the string keeps exactly those bytes.
#[verifier::external_body]
pub(crate) fn ascii_to_string(b: &[u8]) -> (r: String)
    requires
        forall|i: int| 0 <= i < b@.len() ==> b@[i] < 0x80,
    ensures
        r@ == ascii_chars(b@),
        vstd::utf8::encode_utf8(r@) == b@,
{
    String::from_utf8(b.to_vec()).expect("ASCII bytes are valid UTF-8")
}

/// Relies on String::from_utf8: it accepts exactly valid UTF-8 and decodes
/// it, keeping the bytes.
#[verifier::external_body]
pub fn utf8_to_string(b: Vec<u8>) -> (r: Option<String>)
    ensures
        r is Some <==> vstd::utf8::valid_utf8(b@),
        r matches Some(s) ==> s@ == vstd::utf8::decode_utf8(b@) && vstd::utf8::encode_utf8(s@)
            == b@,
{
    String::from_utf8(b).ok()
}

/// The characters of an ASCII byte sequence.
pub open spec fn ascii_chars(b: Seq<u8>) -> Seq<char> {
    Seq::new(b.len(), |i: int| b[i] as char)
}

/// The claims a token carries, as raw UTF-8 field bytes.
#[verifier::ext_equal]
pub ghost struct ClaimsBytes {
    pub sub: Seq<u8>,
    pub username: Seq<u8>,
    pub account_id: Option<Seq<u8>>,
    pub exp: u64,
    pub iat: u64,
    pub token_type: Seq<u8>,
}

/// The claims embedded in a signed token.
pub struct Claims {
    /// The subject: the user id, in decimal.
    pub sub: String,
    pub username: String,
    pub account_id: Option<String>,
    /// Expiry, unix seconds.
    pub exp: u64,
    /// Issued at, unix seconds.
    pub iat: u64,
    /// `"access"` or `"api_key"`.
    pub token_type: String,
}

/// The view of an optional string as optional bytes.
pub open spec fn opt_bytes(o: Option<Seq<char>>) -> Option<Seq<u8>> {
    match o {
        Some(s) => Some(vstd::utf8::encode_utf8(s)),
        None => None,
    }
}

impl Claims {
    /// The field bytes of these claims.
    pub open spec fn view_bytes(&self) -> ClaimsBytes {
        ClaimsBytes {
            sub: vstd::utf8::encode_utf8(self.sub@),
            username: vstd::utf8::encode_utf8(self.username@),
            account_id: match self.account_id {
                Some(a) => Some(vstd::utf8::encode_utf8(a@)),
                None => None,
            },
            exp: self.exp,
            iat: self.iat,
            token_type: vstd::utf8::encode_utf8(self.token_type@),
        }
    }

    /// Claims for `user`, of the given type, expiring `duration_hours`
    /// hours after `now`.
    pub fn new(user: &User, token_type: &str, duration_hours: u64, now: u64) -> (r: Claims)
        requires
            duration_hours <= 1000000,
            now + duration_hours * 3600 <= u64::MAX,
        ensures
            r.view_bytes() == spec_new_claims(
                user.id,
                user.username@,
                crate::types::opt_view(user.near_account_id),
                token_type@,
                now,
                duration_hours,
            ),
    {
        let mut sub_digits: Vec<u8> = Vec::new();
        crate::strutil::push_u128_dec(&mut sub_digits, user.id);
        proof {
            crate::strutil::lemma_dec_of_value(user.id as nat);
            assert(forall|i: int|
                0 <= i < sub_digits@.len() ==> is_digit(#[trigger] sub_digits@[i]));
        }
        let sub = ascii_to_string(sub_digits.as_slice());
        Claims {
            sub,
            username: user.username.clone(),
            account_id: crate::types::clone_opt_string(&user.near_account_id),
            exp: now + duration_hours * 3600,
            iat: now,
            token_type: token_type.to_owned(),
        }
    }
}

/// The claims issued to a user id and name at time `now`.
pub open spec fn spec_new_claims(
    id: u128,
    username: Seq<char>,
    account_id: Option<Seq<char>>,
    token_type: Seq<char>,
    now: u64,
    duration_hours: u64,
) -> ClaimsBytes {
    ClaimsBytes {
        sub: dec_of(id as nat),
        username: vstd::utf8::encode_utf8(username),
        account_id: opt_bytes(account_id),
        exp: (now + duration_hours * 3600) as u64,
        iat: now,
        token_type: vstd::utf8::encode_utf8(token_type),
    }
}

/// The serialized claims object: the six fields, in order, as one strict
/// JSON object.
pub open spec fn claims_payload(cb: ClaimsBytes) -> Seq<u8> {
    "{\"sub\":\"".spec_bytes() + (jstr(cb.sub) + (seq![0x22u8] + (",\"username\":\"".spec_bytes()
        + (jstr(cb.username) + (seq![0x22u8] + (",\"account_id\":".spec_bytes()
        + claims_tail_bytes(cb)))))))
}

/// The serialized claims object from the account-id value onwards.
pub open spec fn claims_tail_bytes(cb: ClaimsBytes) -> Seq<u8> {
    (match cb.account_id {
        None => "null".spec_bytes(),
        Some(a) => seq![0x22u8] + jstr(a) + seq![0x22u8],
    }) + (",\"exp\":".spec_bytes() + (dec_of(cb.exp as nat) + (",\"iat\":".spec_bytes() + (dec_of(
        cb.iat as nat,
    ) + (",\"token_type\":\"".spec_bytes() + (jstr(cb.token_type) + (seq![0x22u8]
        + "}".spec_bytes())))))))
}

/// Writes the serialized claims object.
#[verifier::spinoff_prover]
#[verifier::rlimit(100)]
pub fn claims_payload_bytes(c: &Claims) -> (r: Vec<u8>)
    ensures
        r@ == claims_payload(c.view_bytes()),
{
    let mut out: Vec<u8> = Vec::new();
    out.extend_from_slice("{\"sub\":\"".as_bytes());
    push_jstr(c.sub.as_str().as_bytes(), &mut out);
    out.push(0x22);
    out.extend_from_slice(",\"username\":\"".as_bytes());
    push_jstr(c.username.as_str().as_bytes(), &mut out);
    out.push(0x22);
    out.extend_from_slice(",\"account_id\":".as_bytes());
    match &c.account_id {
        None => {
            out.extend_from_slice("null".as_bytes());
        },
        Some(a) => {
            out.push(0x22);
            push_jstr(a.as_str().as_bytes(), &mut out);
            out.push(0x22);
        },
    }
    out.extend_from_slice(",\"exp\":".as_bytes());
    crate::strutil::push_u64_dec(&mut out, c.exp);
    out.extend_from_slice(",\"iat\":".as_bytes());
    crate::strutil::push_u64_dec(&mut out, c.iat);
    out.extend_from_slice(",\"token_type\":\"".as_bytes());
    push_jstr(c.token_type.as_str().as_bytes(), &mut out);
    out.push(0x22);
    out.extend_from_slice("}".as_bytes());
    proof {
        assert(out@ =~= claims_payload(c.view_bytes()));
    }
    out
}

/// `lit` stands at position `i` of `b`.
pub open spec fn lit_at(b: Seq<u8>, i: int, lit: Seq<u8>) -> bool {
    0 <= i && i + lit.len() <= b.len() && b.subrange(i, i + lit.len()) == lit
}

/// Whether `lit` stands at position `i` of `b`.
fn expect_lit(b: &[u8], i: usize, lit: &[u8]) -> (r: bool)
    ensures
        r == lit_at(b@, i as int, lit@),
{
    let n = b.len();
    if i > n || n - i < lit.len() {
        return false;
    }
    crate::strutil::bytes_eq(subslice(b, i, i + lit.len()), lit)
}

/// Reads the whole claims object from `b`: `None` unless `b` is exactly a
/// serialized claims object.
pub open spec fn parse_claims(b: Seq<u8>) -> Option<ClaimsBytes> {
    let l1 = "{\"sub\":\"".spec_bytes();
    if !lit_at(b, 0, l1) {
        None
    } else {
        match parse_jstr(b.skip(l1.len() as int)) {
            None => None,
            Some((sub, k1)) => {
                let i1 = l1.len() + k1;
                let l2 = ",\"username\":\"".spec_bytes();
                if !lit_at(b, i1, l2) {
                    None
                } else {
                    match parse_jstr(b.skip(i1 + l2.len())) {
                        None => None,
                        Some((username, k2)) => {
                            let i2 = i1 + l2.len() + k2;
                            let l3 = ",\"account_id\":".spec_bytes();
                            if !lit_at(b, i2, l3) {
                                None
                            } else {
                                parse_claims_tail(b, i2 + l3.len() as int, sub, username)
                            }
                        },
                    }
                }
            },
        }
    }
}

/// Reads the claims object from the account-id value onwards.
pub open spec fn parse_claims_tail(
    b: Seq<u8>,
    i: int,
    sub: Seq<u8>,
    username: Seq<u8>,
) -> Option<ClaimsBytes> {
    let acc: Option<(Option<Seq<u8>>, int)> = if lit_at(b, i, "null".spec_bytes()) {
        Some((None, i + "null".spec_bytes().len()))
    } else if i < b.len() && b[i] == 0x22 {
        match parse_jstr(b.skip(i + 1)) {
            Some((a, k)) => Some((Some(a), i + 1 + k)),
            None => None,
        }
    } else {
        None
    };
    match acc {
        None => None,
        Some((account_id, i3)) => {
            let l4 = ",\"exp\":".spec_bytes();
            if !lit_at(b, i3, l4) {
                None
            } else {
                match parse_dec(b.skip(i3 + l4.len())) {
                    None => None,
                    Some((exp, k4)) => {
                        let i4 = i3 + l4.len() + k4;
                        let l5 = ",\"iat\":".spec_bytes();
                        if !lit_at(b, i4, l5) {
                            None
                        } else {
                            match parse_dec(b.skip(i4 + l5.len())) {
                                None => None,
                                Some((iat, k5)) => {
                                    let i5 = i4 + l5.len() + k5;
                                    let l6 = ",\"token_type\":\"".spec_bytes();
                                    if !lit_at(b, i5, l6) {
                                        None
                                    } else {
                                        match parse_jstr(b.skip(i5 + l6.len())) {
                                            None => None,
                                            Some((token_type, k6)) => {
                                                let i6 = i5 + l6.len() + k6;
                                                if lit_at(b, i6, "}".spec_bytes()) && i6
                                                    + "}".spec_bytes().len() == b.len() {
                                                    Some(
                                                        ClaimsBytes {
                                                            sub,
                                                            username,
                                                            account_id,
                                                            exp,
                                                            iat,
                                                            token_type,
                                                        },
                                                    )
                                                } else {
                                                    None
                                                }
                                            },
                                        }
                                    }
                                },
                            }
                        }
                    },
                }
            }
        },
    }
}

/// The parsed field bytes of a claims object.
pub struct ParsedClaims {
    pub sub: Vec<u8>,
    pub username: Vec<u8>,
    pub account_id: Option<Vec<u8>>,
    pub exp: u64,
    pub iat: u64,
    pub token_type: Vec<u8>,
}

/// The field bytes `p` holds.
pub open spec fn parsed_view(p: ParsedClaims) -> ClaimsBytes {
    ClaimsBytes {
        sub: p.sub@,
        username: p.username@,
        account_id: match p.account_id {
            Some(a) => Some(a@),
            None => None,
        },
        exp: p.exp,
        iat: p.iat,
        token_type: p.token_type@,
    }
}

/// Reads a serialized claims object.
pub fn parse_claims_bytes(b: &[u8]) -> (r: Option<ParsedClaims>)
    ensures
        match r {
            Some(p) => parse_claims(b@) == Some(parsed_view(p)),
            None => parse_claims(b@) is None,
        },
{
    let bn = b.len();
    proof {
        assert(bn == b@.len());
    }
    let l1 = "{\"sub\":\"".as_bytes();
    if !expect_lit(b, 0, l1) {
        return None;
    }
    let (sub, i1) = match parse_jstring(b, l1.len()) {
        Some(p) => p,
        None => {
            return None;
        },
    };
    let l2 = ",\"username\":\"".as_bytes();
    if !expect_lit(b, i1, l2) {
        return None;
    }
    let (username, i2) = match parse_jstring(b, i1 + l2.len()) {
        Some(p) => p,
        None => {
            return None;
        },
    };
    let l3 = ",\"account_id\":".as_bytes();
    if !expect_lit(b, i2, l3) {
        return None;
    }
    let ia = i2 + l3.len();
    let lnull = "null".as_bytes();
    let (account_id, i3): (Option<Vec<u8>>, usize) = if expect_lit(b, ia, lnull) {
        (None, ia + lnull.len())
    } else if ia < bn && b[ia] == 0x22 {
        match parse_jstring(b, ia + 1) {
            Some((a, k)) => (Some(a), k),
            None => {
                return None;
            },
        }
    } else {
        return None;
    };
    let l4 = ",\"exp\":".as_bytes();
    if !expect_lit(b, i3, l4) {
        return None;
    }
    let (exp, i4) = match parse_decimal(b, i3 + l4.len()) {
        Some(p) => p,
        None => {
            return None;
        },
    };
    let l5 = ",\"iat\":".as_bytes();
    if !expect_lit(b, i4, l5) {
        return None;
    }
    let (iat, i5) = match parse_decimal(b, i4 + l5.len()) {
        Some(p) => p,
        None => {
            return None;
        },
    };
    let l6 = ",\"token_type\":\"".as_bytes();
    if !expect_lit(b, i5, l6) {
        return None;
    }
    let (token_type, i6) = match parse_jstring(b, i5 + l6.len()) {
        Some(p) => p,
        None => {
            return None;
        },
    };
    let l7 = "}".as_bytes();
    if !expect_lit(b, i6, l7) {
        return None;
    }
    if i6 + l7.len() != bn {
        return None;
    }
    Some(ParsedClaims { sub, username, account_id, exp, iat, token_type })
}

/// If the suffix of `b` at `i` starts with `x`, then skipping past `x`
/// lands on the rest.
proof fn lemma_skip_shift(b: Seq<u8>, i: int, x: Seq<u8>, rest: Seq<u8>)
    requires
        0 <= i <= b.len(),
        b.skip(i) == x + rest,
    ensures
        b.skip(i + x.len()) =~= rest,
        i + x.len() <= b.len(),
{
    assert(b.skip(i).len() == x.len() + rest.len());
    assert forall|j: int| 0 <= j < rest.len() implies b.skip(i + x.len() as int)[j] == rest[j] by {
        assert(b.skip(i)[x.len() + j] == (x + rest)[x.len() + j]);
        assert(b.skip(i)[x.len() + j] == b[i + x.len() + j]);
        assert(b.skip(i + x.len() as int)[j] == b[i + x.len() + j]);
    }
}

/// If the suffix of `b` at `i` is `lit` then `rest`, the literal stands at
/// `i` and the rest follows it.
proof fn lemma_lit_here(b: Seq<u8>, i: int, lit: Seq<u8>, rest: Seq<u8>)
    requires
        0 <= i <= b.len(),
        b.skip(i) == lit + rest,
    ensures
        lit_at(b, i, lit),
        b.skip(i + lit.len()) =~= rest,
{
    lemma_skip_shift(b, i, lit, rest);
    assert forall|j: int| 0 <= j < lit.len() implies b.subrange(i, i + lit.len() as int)[j]
        == lit[j] by {
        assert(b.skip(i)[j] == (lit + rest)[j]);
    }
    assert(b.subrange(i, i + lit.len() as int) =~= lit);
}

/// Reading a serialized claims object gives the claims back.
#[verifier::spinoff_prover]
#[verifier::rlimit(100)]
pub proof fn lemma_claims_round_trip(cb: ClaimsBytes)
    ensures
        parse_claims(claims_payload(cb)) == Some(cb),
{
    let b = claims_payload(cb);
    let l1 = "{\"sub\":\"".spec_bytes();
    let l2 = ",\"username\":\"".spec_bytes();
    let l3 = ",\"account_id\":".spec_bytes();
    let q: Seq<u8> = seq![0x22u8];
    let r0: Seq<u8> = l3 + claims_tail_bytes(cb);
    let u1: Seq<u8> = jstr(cb.username) + q + r0;
    let u0: Seq<u8> = l2 + u1;
    let s1: Seq<u8> = jstr(cb.sub) + q + u0;
    assert(b =~= l1 + s1);
    assert(b.skip(0) =~= b);
    lemma_lit_here(b, 0, l1, s1);
    // the subject string
    assert(b.skip(l1.len() as int) == s1);
    lemma_jstr_round_trip(cb.sub, u0);
    assert(s1 =~= jstr(cb.sub) + q + u0);
    let i1 = l1.len() as int + jstr(cb.sub).len() + 1;
    lemma_skip_shift(b, l1.len() as int, jstr(cb.sub) + q, u0);
    assert((jstr(cb.sub) + q).len() == jstr(cb.sub).len() + 1);
    // the username string
    lemma_lit_here(b, i1 as int, l2, u1);
    lemma_jstr_round_trip(cb.username, r0);
    assert(u1 =~= jstr(cb.username) + q + r0);
    let i2 = i1 + l2.len() + jstr(cb.username).len() + 1;
    lemma_skip_shift(b, (i1 + l2.len()) as int, jstr(cb.username) + q, r0);
    // the rest, from the account id onwards
    lemma_lit_here(b, i2 as int, l3, claims_tail_bytes(cb));
    lemma_claims_tail_round_trip(cb, b, i2 + l3.len());
    assert(parse_claims(b) == Some(cb));
}

/// Reading the serialized tail (account id, times, token type) at its
/// position gives the claims back.
#[verifier::spinoff_prover]
#[verifier::rlimit(100)]
proof fn lemma_claims_tail_round_trip(cb: ClaimsBytes, b: Seq<u8>, i: int)
    requires
        0 <= i <= b.len(),
        b.skip(i) == claims_tail_bytes(cb),
    ensures
        parse_claims_tail(b, i, cb.sub, cb.username) == Some(cb),
{
    let l4 = ",\"exp\":".spec_bytes();
    let l5 = ",\"iat\":".spec_bytes();
    let l6 = ",\"token_type\":\"".spec_bytes();
    let l7 = "}".spec_bytes();
    let q: Seq<u8> = seq![0x22u8];
    let acc: Seq<u8> = match cb.account_id {
        None => "null".spec_bytes(),
        Some(a) => q + jstr(a) + q,
    };
    let d1 = dec_of(cb.exp as nat);
    let d2 = dec_of(cb.iat as nat);
    let r7: Seq<u8> = jstr(cb.token_type) + (q + l7);
    let r6: Seq<u8> = l6 + r7;
    let r5: Seq<u8> = d2 + r6;
    let r4: Seq<u8> = l5 + r5;
    let r3: Seq<u8> = d1 + r4;
    let r2: Seq<u8> = l4 + r3;
    assert(b.skip(i) =~= acc + r2);
    let i3 = i + acc.len();
    reveal_strlit("null");
    vstd::utf8::is_ascii_chars_encode_utf8("null"@);
    assert(vstd::utf8::is_ascii_chars("null"@));
    assert("null".spec_bytes().len() == 4 && "null".spec_bytes()[0] == 0x6E);
    match cb.account_id {
        None => {
            lemma_lit_here(b, i, "null".spec_bytes(), r2);
        },
        Some(a) => {
            assert((acc + r2)[0] == 0x22);
            assert(b[i] == 0x22) by {
                assert(b.skip(i)[0] == (acc + r2)[0]);
            }
            assert(!lit_at(b, i, "null".spec_bytes())) by {
                if lit_at(b, i, "null".spec_bytes()) {
                    assert(b.subrange(i, i + 4)[0] == 0x6E);
                    assert(b[i] == 0x6E);
                }
            }
            assert(acc + r2 =~= q + (jstr(a) + q + r2));
            lemma_skip_shift(b, i, q, jstr(a) + q + r2);
            lemma_jstr_round_trip(a, r2);
            lemma_skip_shift(b, i + 1, jstr(a) + q, r2);
            assert(acc.len() == 1 + jstr(a).len() + 1);
        },
    }
    assert(b.skip(i3 as int) =~= r2);
    // the expiry
    lemma_lit_here(b, i3 as int, l4, r3);
    reveal_strlit(",\"iat\":");
    vstd::utf8::is_ascii_chars_encode_utf8(",\"iat\":"@);
    assert(vstd::utf8::is_ascii_chars(",\"iat\":"@));
    assert(l5.len() == 7 && l5[0] == 0x2C);
    assert(r4[0] == 0x2C) by {
        assert(r4[0] == l5[0]);
    }
    lemma_dec_round_trip(cb.exp, r4);
    assert(r3 =~= d1 + r4);
    let i4 = i3 + l4.len() + d1.len();
    lemma_skip_shift(b, (i3 + l4.len()) as int, d1, r4);
    // the issue time
    lemma_lit_here(b, i4 as int, l5, r5);
    reveal_strlit(",\"token_type\":\"");
    vstd::utf8::is_ascii_chars_encode_utf8(",\"token_type\":\""@);
    assert(vstd::utf8::is_ascii_chars(",\"token_type\":\""@));
    assert(l6[0] == 0x2C);
    assert(r6[0] == 0x2C) by {
        assert(r6[0] == l6[0]);
    }
    lemma_dec_round_trip(cb.iat, r6);
    assert(r5 =~= d2 + r6);
    let i5 = i4 + l5.len() + d2.len();
    lemma_skip_shift(b, (i4 + l5.len()) as int, d2, r6);
    // the token type string and the closing brace
    lemma_lit_here(b, i5 as int, l6, r7);
    lemma_jstr_round_trip(cb.token_type, l7);
    assert(r7 =~= jstr(cb.token_type) + q + l7);
    let i6 = i5 + l6.len() + jstr(cb.token_type).len() + 1;
    lemma_skip_shift(b, (i5 + l6.len()) as int, jstr(cb.token_type) + q, l7);
    lemma_lit_here(b, i6 as int, l7, Seq::empty());
    assert(l7 + Seq::<u8>::empty() =~= l7);
    assert(i6 + l7.len() == b.len());
}

/// The fixed JWT header this library signs with.
pub open spec fn header_json() -> Seq<u8> {
    "{\"typ\":\"JWT\",\"alg\":\"HS256\"}".spec_bytes()
}

/// The signing input of a token: encoded header, a dot, encoded claims.
pub open spec fn signing_input(cb: ClaimsBytes) -> Seq<u8> {
    b64_of(header_json()) + seq![0x2Eu8] + b64_of(claims_payload(cb))
}

/// A whole token, as characters: the signing input (ASCII) followed by a
/// dot and the signature.
pub open spec fn spec_token(cb: ClaimsBytes, key: Seq<u8>) -> Seq<char> {
    ascii_chars(signing_input(cb)) + seq!['.'] + hs256_sig(signing_input(cb), key)
}

/// A base64url digit is ASCII and is neither a dot nor a quote.
proof fn lemma_b64_char_props(v: u8)
    ensures
        b64_char(v) < 0x80,
        b64_char(v) != 0x2E,
        b64_char(v) != 0x22,
{
}

/// Every base64url digit is ASCII and is not a dot.
proof fn lemma_b64_of_ascii(s: Seq<u8>)
    ensures
        forall|i: int|
            0 <= i < b64_of(s).len() ==> #[trigger] b64_of(s)[i] < 0x80 && b64_of(s)[i] != 0x2E
                && b64_of(s)[i] != 0x22,
    decreases s.len(),
{
    if s.len() > 3 {
        lemma_b64_of_ascii(s.skip(3));
    }
    assert forall|i: int|
        0 <= i < b64_of(s).len() implies #[trigger] b64_of(s)[i] < 0x80 && b64_of(s)[i] != 0x2E
        && b64_of(s)[i] != 0x22 by {
        if s.len() == 1 {
            assert(b64_of(s)[0] == b64_char(s[0] / 4));
            assert(b64_of(s)[1] == b64_char(((s[0] % 4) * 16) as u8));
            lemma_b64_char_props(s[0] / 4);
            lemma_b64_char_props(((s[0] % 4) * 16) as u8);
        } else if s.len() == 2 {
            assert(b64_of(s)[0] == b64_char(s[0] / 4));
            assert(b64_of(s)[1] == b64_char(((s[0] % 4) * 16 + s[1] / 16) as u8));
            assert(b64_of(s)[2] == b64_char(((s[1] % 16) * 4) as u8));
            lemma_b64_char_props(s[0] / 4);
            lemma_b64_char_props(((s[0] % 4) * 16 + s[1] / 16) as u8);
            lemma_b64_char_props(((s[1] % 16) * 4) as u8);
        } else if s.len() >= 3 {
            if i < 4 {
                assert(b64_of(s)[0] == b64_char(s[0] / 4));
                assert(b64_of(s)[1] == b64_char(((s[0] % 4) * 16 + s[1] / 16) as u8));
                assert(b64_of(s)[2] == b64_char(((s[1] % 16) * 4 + s[2] / 64) as u8));
                assert(b64_of(s)[3] == b64_char((s[2] % 64) as u8));
                lemma_b64_char_props(s[0] / 4);
                lemma_b64_char_props(((s[0] % 4) * 16 + s[1] / 16) as u8);
                lemma_b64_char_props(((s[1] % 16) * 4 + s[2] / 64) as u8);
                lemma_b64_char_props((s[2] % 64) as u8);
            } else {
                assert(b64_of(s)[i] == b64_of(s.skip(3))[i - 4]);
            }
        }
    }
}

/// Creates the signed token for `claims`.
pub fn sign_claims(claims: &Claims, key: &[u8]) -> (r: String)
    ensures
        r@ == spec_token(claims.view_bytes(), key@),
{
    let payload = claims_payload_bytes(claims);
    let mut msg: Vec<u8> = Vec::new();
    b64_encode_onto("{\"typ\":\"JWT\",\"alg\":\"HS256\"}".as_bytes(), &mut msg);
    msg.push(0x2E);
    b64_encode_onto(payload.as_slice(), &mut msg);
    proof {
        assert(msg@ =~= signing_input(claims.view_bytes()));
        lemma_b64_of_ascii(header_json());
        lemma_b64_of_ascii(claims_payload(claims.view_bytes()));
        assert(forall|i: int| 0 <= i < msg@.len() ==> #[trigger] msg@[i] < 0x80);
    }
    let sig = hs256_sign(msg.as_slice(), key);
    let head = ascii_to_string(msg.as_slice());
    let with_dot = head.concat(".");
    let token = with_dot.concat(sig.as_str());
    proof {
        reveal_strlit(".");
        assert("."@ =~= seq!['.']);
        assert(token@ =~= spec_token(claims.view_bytes(), key@));
    }
    token
}

/// The first position of `x` in `b` at or after `from`, or −1.
pub open spec fn idx_of_from(b: Seq<u8>, x: u8, from: int) -> int
    decreases b.len() - from,
{
    if from < 0 || from >= b.len() {
        -1
    } else if b[from] == x {
        from
    } else {
        idx_of_from(b, x, from + 1)
    }
}

/// Finds the first `x` in `b` at or after `from`.
pub fn find_byte_from(b: &[u8], x: u8, from: usize) -> (r: Option<usize>)
    ensures
        match r {
            Some(i) => from <= i < b@.len() && idx_of_from(b@, x, from as int) == i as int,
            None => idx_of_from(b@, x, from as int) < 0,
        },
{
    let n = b.len();
    let mut k: usize = from;
    if k > n {
        proof {
            lemma_idx_of_from_none(b@, x, from as int);
        }
        return None;
    }
    while k < n
        invariant
            n == b@.len(),
            from <= k <= n,
            forall|j: int| from <= j < k ==> b@[j] != x,
            idx_of_from(b@, x, from as int) == idx_of_from(b@, x, k as int),
        decreases n - k,
    {
        if b[k] == x {
            return Some(k);
        }
        k = k + 1;
    }
    None
}

/// Past the end there is nothing to find.
proof fn lemma_idx_of_from_none(b: Seq<u8>, x: u8, from: int)
    requires
        from >= b.len() || from < 0,
    ensures
        idx_of_from(b, x, from) < 0,
{
}

/// What token verification yields on the raw bytes of a candidate token:
/// the claims, exactly when the token splits into our header, a claims
/// object and a signature that matches, and the claims are not expired.
/// (Opaque: callers relate outcomes; only the checker and the round-trip
/// proof unfold it.)
#[verifier::opaque]
pub open spec fn spec_verify_token(tok: Seq<u8>, key: Seq<u8>, now: u64) -> Option<ClaimsBytes> {
    let i = idx_of_from(tok, 0x2E, 0);
    if i < 0 {
        None
    } else {
        let j = idx_of_from(tok, 0x2E, i + 1);
        if j < 0 {
            None
        } else if tok.subrange(0, i) != b64_of(header_json()) {
            None
        } else if tok.subrange(j + 1, tok.len() as int) != vstd::utf8::encode_utf8(
            hs256_sig(tok.subrange(0, j), key),
        ) {
            None
        } else {
            match b64_back(tok.subrange(i + 1, j)) {
                None => None,
                Some(pb) => match parse_claims(pb) {
                    None => None,
                    Some(cb) => if now < cb.exp {
                        Some(cb)
                    } else {
                        None
                    },
                },
            }
        }
    }
}

/// Checks a candidate token and returns its claims when the signature is
/// ours and the token has not expired. Fields that are not valid UTF-8
/// (impossible in a token this library minted) are refused.
pub fn check_token(token: &str, key: &[u8], now: u64) -> (r: Option<Claims>)
    ensures
        match r {
            Some(c) => spec_verify_token(token.spec_bytes(), key@, now) == Some(c.view_bytes()),
            None => match spec_verify_token(token.spec_bytes(), key@, now) {
                Some(cb) => !vstd::utf8::valid_utf8(cb.sub) || !vstd::utf8::valid_utf8(cb.username)
                    || (cb.account_id matches Some(a) && !vstd::utf8::valid_utf8(a))
                    || !vstd::utf8::valid_utf8(cb.token_type),
                None => true,
            },
        },
{
    proof {
        reveal(spec_verify_token);
    }
    let b = token.as_bytes();
    let bn = b.len();
    let i = match find_byte_from(b, 0x2E, 0) {
        Some(i) => i,
        None => {
            return None;
        },
    };
    let j = match find_byte_from(b, 0x2E, i + 1) {
        Some(j) => j,
        None => {
            return None;
        },
    };
    let mut expected_head: Vec<u8> = Vec::new();
    b64_encode_onto("{\"typ\":\"JWT\",\"alg\":\"HS256\"}".as_bytes(), &mut expected_head);
    if !crate::strutil::bytes_eq(subslice(b, 0, i), expected_head.as_slice()) {
        return None;
    }
    if !hs256_check(subslice(b, j + 1, bn), subslice(b, 0, j), key) {
        return None;
    }
    let payload = match b64_decode(subslice(b, i + 1, j)) {
        Some(p) => p,
        None => {
            return None;
        },
    };
    let parsed = match parse_claims_bytes(payload.as_slice()) {
        Some(p) => p,
        None => {
            return None;
        },
    };
    if now >= parsed.exp {
        return None;
    }
    let ghost cb = parsed_view(parsed);
    let sub = match utf8_to_string(parsed.sub) {
        Some(s) => s,
        None => {
            return None;
        },
    };
    let username = match utf8_to_string(parsed.username) {
        Some(s) => s,
        None => {
            return None;
        },
    };
    let account_id = match parsed.account_id {
        Some(a) => match utf8_to_string(a) {
            Some(s) => Some(s),
            None => {
                return None;
            },
        },
        None => None,
    };
    let token_type = match utf8_to_string(parsed.token_type) {
        Some(s) => s,
        None => {
            return None;
        },
    };
    let c = Claims { sub, username, account_id, exp: parsed.exp, iat: parsed.iat, token_type };
    proof {
        vstd::utf8::decode_utf8_encode_utf8(cb.sub);
        vstd::utf8::decode_utf8_encode_utf8(cb.username);
        vstd::utf8::decode_utf8_encode_utf8(cb.token_type);
        if cb.account_id is Some {
            vstd::utf8::decode_utf8_encode_utf8(cb.account_id->0);
        }
        assert(c.view_bytes() =~= cb);
    }
    Some(c)
}

/// `encode_utf8` distributes over concatenation.
proof fn lemma_encode_utf8_concat(a: Seq<char>, b: Seq<char>)
    ensures
        vstd::utf8::encode_utf8(a + b) == vstd::utf8::encode_utf8(a) + vstd::utf8::encode_utf8(b),
    decreases a.len(),
{
    if a.len() == 0 {
        assert(a + b =~= b);
        assert(vstd::utf8::encode_utf8(a) =~= Seq::<u8>::empty());
        assert(vstd::utf8::encode_utf8(a) + vstd::utf8::encode_utf8(b) =~= vstd::utf8::encode_utf8(
            b,
        ));
    } else {
        lemma_encode_utf8_concat(a.drop_first(), b);
        assert((a + b).drop_first() =~= a.drop_first() + b);
        assert((a + b)[0] == a[0]);
        assert(vstd::utf8::encode_utf8(a + b) =~= vstd::utf8::encode_utf8(a)
            + vstd::utf8::encode_utf8(b));
    }
}

/// The UTF-8 encoding of the characters of ASCII bytes is those bytes.
proof fn lemma_encode_ascii_chars(b: Seq<u8>)
    requires
        forall|i: int| 0 <= i < b.len() ==> b[i] < 0x80,
    ensures
        vstd::utf8::encode_utf8(ascii_chars(b)) == b,
{
    let c = ascii_chars(b);
    assert(vstd::utf8::is_ascii_chars(c)) by {
        assert(forall|i: int| 0 <= i < c.len() ==> c[i] == b[i] as char);
    }
    vstd::utf8::is_ascii_chars_encode_utf8(c);
    assert(vstd::utf8::encode_utf8(c) =~= b);
}

/// The bytes of a token this library minted.
pub proof fn lemma_token_bytes(cb: ClaimsBytes, key: Seq<u8>)
    ensures
        vstd::utf8::encode_utf8(spec_token(cb, key)) == signing_input(cb) + seq![0x2Eu8]
            + vstd::utf8::encode_utf8(hs256_sig(signing_input(cb), key)),
{
    let msg = signing_input(cb);
    lemma_b64_of_ascii(header_json());
    lemma_b64_of_ascii(claims_payload(cb));
    assert(forall|i: int| 0 <= i < msg.len() ==> msg[i] < 0x80);
    lemma_encode_utf8_concat(ascii_chars(msg) + seq!['.'], hs256_sig(msg, key));
    lemma_encode_utf8_concat(ascii_chars(msg), seq!['.']);
    lemma_encode_ascii_chars(msg);
    assert(spec_token(cb, key) =~= (ascii_chars(msg) + seq!['.']) + hs256_sig(msg, key));
    assert(vstd::utf8::encode_utf8(seq!['.']) =~= seq![0x2Eu8]) by {
        assert(vstd::utf8::is_ascii_chars(seq!['.']));
        vstd::utf8::is_ascii_chars_encode_utf8(seq!['.']);
    }
}

/// Token round trip: checking a token this library minted yields exactly
/// the claims it was minted for while they are unexpired, and nothing
/// once they expire.
#[verifier::spinoff_prover]
#[verifier::rlimit(100)]
pub proof fn lemma_token_round_trip(cb: ClaimsBytes, key: Seq<u8>, now: u64)
    ensures
        spec_verify_token(vstd::utf8::encode_utf8(spec_token(cb, key)), key, now) == (if now
            < cb.exp {
            Some(cb)
        } else {
            None::<ClaimsBytes>
        }),
{
    reveal(spec_verify_token);
    lemma_token_bytes(cb, key);
    let head = b64_of(header_json());
    let pay = b64_of(claims_payload(cb));
    let msg = signing_input(cb);
    let sig = vstd::utf8::encode_utf8(hs256_sig(msg, key));
    let tok = vstd::utf8::encode_utf8(spec_token(cb, key));
    assert(tok =~= head + seq![0x2Eu8] + pay + seq![0x2Eu8] + sig);
    lemma_b64_of_ascii(header_json());
    lemma_b64_of_ascii(claims_payload(cb));
    let hl = head.len() as int;
    let pl = pay.len() as int;
    assert(tok[hl] == 0x2E);
    assert(forall|k: int| 0 <= k < hl ==> #[trigger] tok[k] == head[k] && tok[k] != 0x2E);
    lemma_idx_of_found(tok, 0x2E, 0, hl);
    assert(tok[hl + 1 + pl] == 0x2E);
    assert(forall|k: int|
        hl + 1 <= k < hl + 1 + pl ==> #[trigger] tok[k] == pay[k - hl - 1] && tok[k] != 0x2E);
    lemma_idx_of_found(tok, 0x2E, hl + 1, hl + 1 + pl);
    assert(tok.subrange(0, hl) =~= head);
    assert(tok.subrange(hl + 1, hl + 1 + pl) =~= pay);
    assert(tok.subrange(hl + 1 + pl + 1, tok.len() as int) =~= sig);
    assert(tok.subrange(0, hl + 1 + pl) =~= msg);
    lemma_b64_round_trip(claims_payload(cb));
    lemma_claims_round_trip(cb);
}

/// How long a token of the given type lives, in hours: API keys thirty
/// days, access tokens one hour.
pub open spec fn spec_token_duration_hours(token_type: Seq<char>) -> u64 {
    if token_type == "api_key"@ {
        720u64
    } else {
        1u64
    }
}

/// Creates a signed bearer token for `user`: an `api_key` token lives
/// thirty days, an access token one hour.
pub fn create_jwt_token(user: &User, secret: &str, token_type: &str, now: u64) -> (r: Result<
    String,
    ErrorKind,
>)
    requires
        now + 2592000 <= u64::MAX,
    ensures
        r is Ok,
        r matches Ok(t) ==> t@ == spec_token(
            spec_new_claims(
                user.id,
                user.username@,
                crate::types::opt_view(user.near_account_id),
                token_type@,
                now,
                spec_token_duration_hours(token_type@),
            ),
            vstd::utf8::encode_utf8(secret@),
        ),
{
    let duration_hours: u64 = if crate::strutil::str_eq(token_type, "api_key") {
        720
    } else {
        1
    };
    let claims = Claims::new(user, token_type, duration_hours, now);
    Ok(sign_claims(&claims, secret.as_bytes()))
}

/// Verifies a candidate bearer token: the claims come back exactly when
/// the signature is this library's and the token is unexpired; everything
/// else is `Unauthorized`.
pub fn verify_jwt_token(token: &str, secret: &str, now: u64) -> (r: Result<Claims, ErrorKind>)
    ensures
        match spec_verify_token(token.spec_bytes(), vstd::utf8::encode_utf8(secret@), now) {
            Some(cb) => match r {
                Ok(c) => c.view_bytes() == cb,
                Err(e) => e == ErrorKind::Unauthorized && (!vstd::utf8::valid_utf8(cb.sub)
                    || !vstd::utf8::valid_utf8(cb.username) || (cb.account_id matches Some(a)
                    && !vstd::utf8::valid_utf8(a)) || !vstd::utf8::valid_utf8(cb.token_type)),
            },
            None => r == Err::<Claims, ErrorKind>(ErrorKind::Unauthorized),
        },
{
    match check_token(token, secret.as_bytes(), now) {
        Some(c) => Ok(c),
        None => Err(ErrorKind::Unauthorized),
    }
}

/// When the bytes before `at` differ from `x` and `b[at] == x`, the search
/// from `from` lands on `at`.
proof fn lemma_idx_of_found(b: Seq<u8>, x: u8, from: int, at: int)
    requires
        0 <= from <= at < b.len(),
        b[at] == x,
        forall|k: int| from <= k < at ==> b[k] != x,
    ensures
        idx_of_from(b, x, from) == at,
    decreases at - from,
{
    if from < at {
        lemma_idx_of_found(b, x, from + 1, at);
    }
}

} // verus!
