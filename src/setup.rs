//! The trusted setup's shape: the domain-size exponent read from the setup's
//! provenance name, and the evaluation domain's generator.
use crate::field::{reduce, root_of_unity_value, Fp};
use vstd::arithmetic::power::pow;
use vstd::prelude::*;
use vstd::string::StringSliceAdditionalSpecFns;

verus! {

/// Largest domain-size exponent the field supports: its two-adicity.
pub const MAX_DOMAIN_EXPONENT: u32 = 28;

/// Index where the last `-`-delimited segment of `b[..j]` starts.
pub open spec fn segment_start(b: Seq<u8>, j: int) -> int
    decreases j,
{
    if j <= 0 {
        0
    } else if b[j - 1] == 45u8 {
        j
    } else {
        segment_start(b, j - 1)
    }
}

/// The last `-`-delimited segment of a name.
pub open spec fn last_segment(b: Seq<u8>) -> Seq<u8> {
    b.subrange(segment_start(b, b.len() as int), b.len() as int)
}

pub open spec fn is_digit(c: u8) -> bool {
    48u8 <= c <= 57u8
}

/// The number that a string of decimal digits denotes.
pub open spec fn digits_value(s: Seq<u8>) -> nat
    decreases s.len(),
{
    if s.len() == 0 {
        0
    } else {
        digits_value(s.drop_last()) * 10 + (s.last() - 48u8) as nat
    }
}

/// The exponent named by a setup's provenance name: its last `-`-delimited
/// segment read as a decimal `u32`, or `None` where that segment is empty,
/// holds a non-digit, or is too large.
pub open spec fn setup_exponent(name: Seq<u8>) -> Option<u32> {
    let seg = last_segment(name);
    if seg.len() > 0 && (forall|i: int| 0 <= i < seg.len() ==> is_digit(#[trigger] seg[i]))
        && digits_value(seg) <= u32::MAX {
        Some(digits_value(seg) as u32)
    } else {
        None
    }
}

/// Generator of the evaluation domain of size `2^k`.
pub open spec fn domain_generator_value(k: u32) -> nat {
    reduce(pow(root_of_unity_value() as int, pow(2, (MAX_DOMAIN_EXPONENT - k) as nat) as nat))
}

proof fn lemma_digits_monotone(s: Seq<u8>, i: int, j: int)
    requires
        0 <= i <= j <= s.len(),
        forall|t: int| 0 <= t < s.len() ==> is_digit(#[trigger] s[t]),
    ensures
        digits_value(s.take(i)) <= digits_value(s.take(j)),
    decreases j - i,
{
    if i < j {
        lemma_digits_monotone(s, i, j - 1);
        assert(s.take(j).drop_last() =~= s.take(j - 1));
    }
}

/// Reads the domain-size exponent from a setup's provenance name, such as
/// `hermez-raw-11`.
pub fn parse_setup_exponent(name: &str) -> (r: Option<u32>)
    ensures
        r == setup_exponent(name.spec_bytes()),
{
    let b = name.as_bytes();
    let n = b.len();
    let mut start: usize = n;
    while start > 0 && b[start - 1] != 45u8
        invariant
            start <= n,
            n == b@.len(),
            segment_start(b@, n as int) == segment_start(b@, start as int),
        decreases start,
    {
        start = start - 1;
    }
    let ghost seg = b@.subrange(start as int, n as int);
    proof {
        assert(segment_start(b@, start as int) == start);
        assert(seg == last_segment(b@));
    }
    if start == n {
        return None;
    }
    let mut value: u64 = 0;
    let mut i: usize = start;
    while i < n
        invariant
            start <= i <= n,
            n == b@.len(),
            seg == b@.subrange(start as int, n as int),
            seg == last_segment(b@),
            b@ == name.spec_bytes(),
            forall|t: int| 0 <= t < i - start ==> is_digit(#[trigger] seg[t]),
            value == digits_value(seg.take(i - start)),
            value <= u32::MAX,
        decreases n - i,
    {
        let c = b[i];
        if c < 48u8 || c > 57u8 {
            proof {
                assert(!is_digit(seg[i - start]));
            }
            return None;
        }
        let next: u64 = value * 10 + (c - 48u8) as u64;
        proof {
            assert(seg.take(i - start + 1).drop_last() =~= seg.take(i - start));
            assert(seg.take(i - start + 1).last() == c);
            assert(next == digits_value(seg.take(i - start + 1)));
        }
        if next > 4294967295u64 {
            proof {
                if forall|t: int| 0 <= t < seg.len() ==> is_digit(#[trigger] seg[t]) {
                    lemma_digits_monotone(seg, i - start + 1, seg.len() as int);
                    assert(seg.take(seg.len() as int) =~= seg);
                }
            }
            return None;
        }
        value = next;
        i = i + 1;
    }
    proof {
        assert(seg.take(seg.len() as int) =~= seg);
    }
    Some(value as u32)
}

/// Generator of the evaluation domain of size `2^k`: the root of unity
/// squared `28 - k` times.
pub fn domain_generator(k: u32) -> (r: Fp)
    requires
        k <= MAX_DOMAIN_EXPONENT,
    ensures
        r.value() == domain_generator_value(k),
{
    let mut e: u64 = 1;
    let mut i: u32 = k;
    proof {
        vstd::arithmetic::power::lemma_pow0(2);
        vstd::arithmetic::power2::lemma2_to64();
        vstd::arithmetic::power::lemma_pow_positive(2, 28);
    }
    while i < MAX_DOMAIN_EXPONENT
        invariant
            k <= i <= MAX_DOMAIN_EXPONENT,
            e == pow(2, (i - k) as nat),
            pow(2, 28) == 0x1000_0000,
        decreases MAX_DOMAIN_EXPONENT - i,
    {
        proof {
            vstd::arithmetic::power::lemma_pow_adds(2, (i - k) as nat, 1);
            vstd::arithmetic::power::lemma_pow1(2);
            vstd::arithmetic::power::lemma_pow_increases(2, (i - k + 1) as nat, 28);
        }
        e = e * 2;
        i = i + 1;
    }
    Fp::root_of_unity().pow(e)
}

} // verus!
