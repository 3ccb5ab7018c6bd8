//! Small verified helpers over strings and byte slices: equality, prefix and
//! substring search, byte length, and decimal parsing/printing.
//!
//! Length limits in this library are byte lengths of the UTF-8 encoding, so
//! the spec-level measure is `blen` (the length of `encode_utf8` of the
//! character view), which coincides with what `str::len` returns.

use vstd::prelude::*;

verus! {

/// Byte length of the UTF-8 encoding of a character sequence.
pub open spec fn blen(s: Seq<char>) -> nat {
    vstd::utf8::encode_utf8(s).len()
}

/// Byte length of a string slice.
pub fn str_blen(s: &str) -> (n: usize)
    ensures
        n == blen(s@),
{
    s.as_bytes().len()
}

/// Character-sequence equality of two string slices.
pub fn str_eq(a: &str, b: &str) -> (r: bool)
    ensures
        r == (a@ == b@),
{
    let sa: String = a.to_owned();
    let sb: String = b.to_owned();
    sa == sb
}

/// Byte-slice equality.
pub fn bytes_eq(a: &[u8], b: &[u8]) -> (r: bool)
    ensures
        r == (a@ == b@),
{
    if a.len() != b.len() {
        return false;
    }
    let n = a.len();
    let mut i: usize = 0;
    while i < n
        invariant
            n == a@.len() == b@.len(),
            0 <= i <= n,
            forall|j: int| 0 <= j < i ==> a@[j] == b@[j],
        decreases n - i,
    {
        if a[i] != b[i] {
            return false;
        }
        i = i + 1;
    }
    proof {
        assert(a@ =~= b@);
    }
    true
}

/// `p` begins with `q`.
pub open spec fn seq_starts_with(p: Seq<u8>, q: Seq<u8>) -> bool {
    p.len() >= q.len() && p.subrange(0, q.len() as int) == q
}

/// Whether the byte slice `a` starts with `prefix`.
pub fn bytes_starts_with(a: &[u8], prefix: &[u8]) -> (r: bool)
    ensures
        r == seq_starts_with(a@, prefix@),
{
    if a.len() < prefix.len() {
        return false;
    }
    let n = prefix.len();
    let mut i: usize = 0;
    while i < n
        invariant
            n == prefix@.len(),
            a@.len() >= n,
            0 <= i <= n,
            forall|j: int| 0 <= j < i ==> a@[j] == prefix@[j],
        decreases n - i,
    {
        if a[i] != prefix[i] {
            proof {
                assert(a@.subrange(0, n as int)[i as int] != prefix@[i as int]);
            }
            return false;
        }
        i = i + 1;
    }
    proof {
        assert(a@.subrange(0, n as int) =~= prefix@);
    }
    true
}

/// `q` occurs somewhere inside `p`.
pub open spec fn seq_contains_sub(p: Seq<u8>, q: Seq<u8>) -> bool {
    exists|k: int| 0 <= k <= p.len() - q.len() && #[trigger] p.subrange(k, k + q.len()) == q
}

/// Whether `needle` occurs as a contiguous subslice of `hay`.
pub fn bytes_contains(hay: &[u8], needle: &[u8]) -> (r: bool)
    ensures
        r == seq_contains_sub(hay@, needle@),
{
    if needle.len() > hay.len() {
        return false;
    }
    if needle.len() == 0 {
        proof {
            assert(hay@.subrange(0, 0 + needle@.len() as int) =~= needle@);
        }
        return true;
    }
    let hn = hay.len();
    let nn = needle.len();
    let last = hn - nn;
    let mut k: usize = 0;
    while k <= last
        invariant
            hn == hay@.len(),
            nn == needle@.len(),
            0 < nn <= hn,
            last == hn - nn,
            0 <= k <= last + 1,
            forall|j: int| 0 <= j < k ==> #[trigger] hay@.subrange(j, j + needle@.len())
                != needle@,
        decreases last + 1 - k,
    {
        let mut i: usize = 0;
        let mut matches: bool = true;
        while i < nn
            invariant
                hn == hay@.len(),
                nn == needle@.len(),
                last == hn - nn,
                0 <= k <= last,
                0 <= i <= nn,
                matches == (forall|j: int| 0 <= j < i ==> hay@[k + j] == needle@[j]),
            decreases nn - i,
        {
            if hay[k + i] != needle[i] {
                matches = false;
                proof {
                    assert(hay@[k + i] != needle@[i as int]);
                }
                i = nn;
            } else {
                i = i + 1;
            }
        }
        if matches {
            proof {
                assert(hay@.subrange(k as int, k + needle@.len()) =~= needle@);
            }
            return true;
        }
        proof {
            let w = choose|j: int| !(0 <= j < needle@.len() ==> hay@[k + j] == needle@[j]);
            assert(hay@.subrange(k as int, k + needle@.len())[w] == hay@[k + w]);
            assert(hay@.subrange(k as int, k + needle@.len()) != needle@);
        }
        k = k + 1;
    }
    proof {
        assert forall|j: int| 0 <= j <= hay@.len() - needle@.len() implies #[trigger] hay@.subrange(
            j,
            j + needle@.len(),
        ) != needle@ by {
            assert(0 <= j < k);
        }
    }
    false
}

/// `b` is an ASCII decimal digit.
pub open spec fn is_digit(b: u8) -> bool {
    0x30 <= b <= 0x39
}

/// The number denoted by a sequence of decimal digit bytes, most significant
/// first.
pub open spec fn dec_value(s: Seq<u8>) -> nat
    decreases s.len(),
{
    if s.len() == 0 {
        0
    } else {
        (dec_value(s.drop_last()) * 10 + if s.last() >= 0x30 {
            s.last() - 0x30
        } else {
            0
        }) as nat
    }
}

/// All bytes of `s` are decimal digits.
pub open spec fn all_digits(s: Seq<u8>) -> bool {
    forall|i: int| 0 <= i < s.len() ==> is_digit(#[trigger] s[i])
}

/// Parses a non-empty all-digit byte slice as a `u64`.
/// Returns `None` when the slice is empty, holds a non-digit, or the value
/// does not fit in a `u64`.
pub fn parse_u64_dec(s: &[u8]) -> (r: Option<u64>)
    ensures
        r is Some ==> s@.len() > 0 && all_digits(s@) && r->0 == dec_value(s@) && dec_value(s@)
            <= u64::MAX,
        r is None ==> s@.len() == 0 || !all_digits(s@) || dec_value(s@) > u64::MAX,
{
    if s.len() == 0 {
        return None;
    }
    let mut acc: u64 = 0;
    let n = s.len();
    let mut i: usize = 0;
    while i < n
        invariant
            n == s@.len(),
            0 <= i <= n,
            all_digits(s@.subrange(0, i as int)),
            acc == dec_value(s@.subrange(0, i as int)),
        decreases n - i,
    {
        let b = s[i];
        if b < 0x30 || b > 0x39 {
            proof {
                assert(!is_digit(s@[i as int]));
            }
            return None;
        }
        let d = (b - 0x30) as u64;
        if acc > (u64::MAX - d) / 10 {
            proof {
                lemma_dec_value_extend_grows(s@, i as int);
            }
            return None;
        }
        acc = acc * 10 + d;
        proof {
            assert(s@.subrange(0, i + 1).drop_last() =~= s@.subrange(0, i as int));
            assert(s@.subrange(0, i + 1).last() == s@[i as int]);
        }
        i = i + 1;
    }
    proof {
        assert(s@.subrange(0, n as int) =~= s@);
    }
    Some(acc)
}

/// If the prefix up to and including position `i` already denotes more than
/// `u64::MAX`, so does every extension of it.
proof fn lemma_dec_value_extend_grows(s: Seq<u8>, i: int)
    requires
        0 <= i < s.len(),
        dec_value(s.subrange(0, i)) * 10 + (s[i] - 0x30) > u64::MAX,
    ensures
        dec_value(s) > u64::MAX,
{
    lemma_dec_value_prefix_monotone(s, i + 1);
    assert(s.subrange(0, i + 1).drop_last() =~= s.subrange(0, i));
    assert(s.subrange(0, i + 1).last() == s[i]);
}

/// The value of a prefix never exceeds the value of the whole sequence.
proof fn lemma_dec_value_prefix_monotone(s: Seq<u8>, i: int)
    requires
        0 <= i <= s.len(),
    ensures
        dec_value(s.subrange(0, i)) <= dec_value(s),
    decreases s.len() - i,
{
    if i == s.len() {
        assert(s.subrange(0, i) =~= s);
    } else {
        lemma_dec_value_prefix_monotone(s, i + 1);
        assert(s.subrange(0, i + 1).drop_last() =~= s.subrange(0, i));
    }
}

/// Parses a non-empty all-digit byte slice as a `u128`.
pub fn parse_u128_dec(s: &[u8]) -> (r: Option<u128>)
    ensures
        r is Some ==> s@.len() > 0 && all_digits(s@) && r->0 == dec_value(s@) && dec_value(s@)
            <= u128::MAX,
        r is None ==> s@.len() == 0 || !all_digits(s@) || dec_value(s@) > u128::MAX,
{
    if s.len() == 0 {
        return None;
    }
    let mut acc: u128 = 0;
    let n = s.len();
    let mut i: usize = 0;
    while i < n
        invariant
            n == s@.len(),
            0 <= i <= n,
            all_digits(s@.subrange(0, i as int)),
            acc == dec_value(s@.subrange(0, i as int)),
        decreases n - i,
    {
        let b = s[i];
        if b < 0x30 || b > 0x39 {
            proof {
                assert(!is_digit(s@[i as int]));
            }
            return None;
        }
        let d = (b - 0x30) as u128;
        if acc > (u128::MAX - d) / 10 {
            proof {
                lemma_dec_value_extend_grows_wide(s@, i as int);
            }
            return None;
        }
        acc = acc * 10 + d;
        proof {
            assert(s@.subrange(0, i + 1).drop_last() =~= s@.subrange(0, i as int));
            assert(s@.subrange(0, i + 1).last() == s@[i as int]);
        }
        i = i + 1;
    }
    proof {
        assert(s@.subrange(0, n as int) =~= s@);
    }
    Some(acc)
}

/// If the prefix up to and including position `i` already denotes more than
/// `u128::MAX`, so does every extension of it.
proof fn lemma_dec_value_extend_grows_wide(s: Seq<u8>, i: int)
    requires
        0 <= i < s.len(),
        dec_value(s.subrange(0, i)) * 10 + (s[i] - 0x30) > u128::MAX,
    ensures
        dec_value(s) > u128::MAX,
{
    lemma_dec_value_prefix_monotone(s, i + 1);
    assert(s.subrange(0, i + 1).drop_last() =~= s.subrange(0, i));
    assert(s.subrange(0, i + 1).last() == s[i]);
}

/// Ten to the `n`.
pub open spec fn pow10(n: nat) -> int
    decreases n,
{
    if n == 0 {
        1
    } else {
        10 * pow10((n - 1) as nat)
    }
}

/// A `d`-digit number is below `10^d`.
pub proof fn lemma_dec_value_bound(s: Seq<u8>)
    requires
        all_digits(s),
    ensures
        0 <= dec_value(s) < pow10(s.len()),
    decreases s.len(),
{
    if s.len() > 0 {
        assert(all_digits(s.drop_last())) by {
            assert(forall|i: int| 0 <= i < s.len() - 1 ==> s.drop_last()[i] == s[i]);
        }
        lemma_dec_value_bound(s.drop_last());
        assert(is_digit(s[s.len() - 1]));
    }
}

/// Ten to the 24: one whole token in smallest units.
pub proof fn lemma_pow10_24()
    ensures
        pow10(24) == 1_000_000_000_000_000_000_000_000int,
{
    reveal_with_fuel(pow10, 25);
}

/// Ten to the `n`, for exponents up to 24.
pub fn pow10_u128(n: u32) -> (r: u128)
    requires
        n <= 24,
    ensures
        r == pow10(n as nat),
    decreases n,
{
    if n == 0 {
        1
    } else {
        let p = pow10_u128(n - 1);
        proof {
            lemma_pow10_le_max(n as nat);
        }
        10 * p
    }
}

/// `10^n` fits in a `u128` for `n` up to 24.
proof fn lemma_pow10_le_max(n: nat)
    requires
        n <= 24,
    ensures
        0 < pow10(n) <= u128::MAX,
    decreases n,
{
    lemma_pow10_24();
    lemma_pow10_monotone(n, 24);
}

/// `pow10` grows with the exponent.
proof fn lemma_pow10_monotone(a: nat, b: nat)
    requires
        a <= b,
    ensures
        pow10(a) <= pow10(b),
        pow10(a) > 0,
    decreases b,
{
    if a < b {
        lemma_pow10_monotone(a, (b - 1) as nat);
    } else {
        lemma_pow10_positive(a);
    }
}

/// `pow10` is positive.
proof fn lemma_pow10_positive(n: nat)
    ensures
        pow10(n) > 0,
    decreases n,
{
    if n > 0 {
        lemma_pow10_positive((n - 1) as nat);
    }
}

/// The canonical decimal digit bytes of `n` (no leading zeros; "0" for 0).
pub open spec fn dec_of(n: nat) -> Seq<u8>
    decreases n,
{
    if n < 10 {
        seq![(0x30 + n) as u8]
    } else {
        dec_of(n / 10).push((0x30 + n % 10) as u8)
    }
}

/// Writes `n` in decimal onto the end of `out`.
pub fn push_u64_dec(out: &mut Vec<u8>, n: u64)
    ensures
        final(out)@ == old(out)@ + dec_of(n as nat),
    decreases n,
{
    if n < 10 {
        out.push((0x30 + n as u8) as u8);
    } else {
        push_u64_dec(out, n / 10);
        out.push((0x30 + (n % 10) as u8) as u8);
    }
    proof {
        if n >= 10 {
            assert(out@ =~= old(out)@ + dec_of(n as nat));
        } else {
            assert(out@ =~= old(out)@ + dec_of(n as nat));
        }
    }
}

/// Writes `n` in decimal onto the end of `out`.
pub fn push_u128_dec(out: &mut Vec<u8>, n: u128)
    ensures
        final(out)@ == old(out)@ + dec_of(n as nat),
    decreases n,
{
    if n < 10 {
        out.push((0x30 + n as u8) as u8);
    } else {
        push_u128_dec(out, n / 10);
        out.push((0x30 + (n % 10) as u8) as u8);
    }
    proof {
        assert(out@ =~= old(out)@ + dec_of(n as nat));
    }
}

/// `dec_of` produces digits, and parsing it gives back `n`.
pub proof fn lemma_dec_of_value(n: nat)
    ensures
        all_digits(dec_of(n)),
        dec_value(dec_of(n)) == n,
        dec_of(n).len() > 0,
    decreases n,
{
    if n < 10 {
        assert(dec_of(n).drop_last() =~= Seq::<u8>::empty());
        assert(dec_of(n).last() == (0x30 + n) as u8);
        assert(dec_value(Seq::<u8>::empty()) == 0);
        assert(dec_value(dec_of(n)) == n);
    } else {
        lemma_dec_of_value(n / 10);
        assert(dec_of(n).drop_last() =~= dec_of(n / 10));
        assert(dec_of(n).last() == (0x30 + n % 10) as u8);
        vstd::arithmetic::div_mod::lemma_fundamental_div_mod(n as int, 10);
        assert(n as int == 10 * (n as int / 10) + n as int % 10);
        assert(n as int / 10 == (n / 10) as int);
        assert(n as int % 10 == (n % 10) as int);
        assert(dec_value(dec_of(n)) == (n / 10) * 10 + n % 10);
    }
}

} // verus!
