//! What holds of every speed that is read.

use vstd::arithmetic::power2::{lemma2_to64, lemma_pow2_adds, lemma_pow2_pos, pow2};
use vstd::prelude::*;

use crate::text::{is_space, trimmed};
use crate::utils::{
    exponent, fraction, is_letter, is_negative, is_positive, rate_of, rate_split, scaled_whole,
    suffix_shift, whole_part,
};

verus! {

/// `w` is made of white space.
pub open spec fn is_blank(w: Seq<char>) -> bool {
    forall|i: int| 0 <= i < w.len() ==> is_space(#[trigger] w[i])
}

proof fn lemma_blank_before(w: Seq<char>, s: Seq<char>)
    requires
        is_blank(w),
    ensures
        trimmed(w + s) == trimmed(s),
    decreases w.len(),
{
    if w.len() == 0 {
        assert(w + s =~= s);
    } else {
        assert((w + s)[0] == w[0]);
        assert((w + s).skip(1) =~= w.skip(1) + s);
        lemma_blank_before(w.skip(1), s);
    }
}

proof fn lemma_blank_behind(s: Seq<char>, w: Seq<char>)
    requires
        is_blank(w),
    ensures
        trimmed(s + w) == trimmed(s),
    decreases s.len() + w.len(),
{
    if s.len() == 0 {
        assert(s + w =~= w + s);
        lemma_blank_before(w, s);
    } else if is_space(s[0]) {
        assert((s + w).skip(1) =~= s.skip(1) + w);
        lemma_blank_behind(s.skip(1), w);
    } else if w.len() == 0 {
        assert(s + w =~= s);
    } else {
        assert(is_space(w[w.len() - 1]));
        assert((s + w).drop_last() =~= s + w.drop_last());
        lemma_blank_behind(s, w.drop_last());
    }
}

/// White space around a speed does not matter.
pub proof fn white_space_around_is_free(
    before: Seq<char>,
    s: Seq<char>,
    behind: Seq<char>,
    number: Option<u64>,
)
    requires
        is_blank(before),
        is_blank(behind),
    ensures
        trimmed(before + s + behind) == trimmed(s),
        rate_of(before + s + behind, number) == rate_of(s, number),
{
    lemma_blank_behind(before + s, behind);
    lemma_blank_before(before, s);
}

/// A letter as it is written small.
pub open spec fn small(c: char) -> char {
    if 'A' <= c <= 'Z' {
        (c as u32 + 32) as char
    } else {
        c
    }
}

/// `s` without the white space in front.
pub open spec fn without_lead(s: Seq<char>) -> Seq<char>
    decreases s.len(),
{
    if s.len() > 0 && is_space(s[0]) {
        without_lead(s.skip(1))
    } else {
        s
    }
}

proof fn lemma_last_stays(d: Seq<char>, c: char)
    requires
        !is_space(c),
    ensures
        trimmed(d.push(c)) == without_lead(d).push(c),
    decreases d.len(),
{
    let s = d.push(c);
    if d.len() > 0 && is_space(d[0]) {
        assert(s.skip(1) =~= d.skip(1).push(c));
        lemma_last_stays(d.skip(1), c);
    } else {
        assert(s.last() == c);
        assert(!is_space(s[0]));
    }
}

/// A suffix means the same, written large or small: the speeds are the same,
/// and so is which of them are none.
pub proof fn suffixes_may_be_large(d: Seq<char>, c: char, number: Option<u64>)
    requires
        is_letter(c),
    ensures
        rate_of(d.push(c), number) is Ok <==> rate_of(d.push(small(c)), number) is Ok,
        rate_of(d.push(c), number) is Ok ==> rate_of(d.push(c), number) == rate_of(
            d.push(small(c)),
            number,
        ),
{
    lemma_last_stays(d, c);
    lemma_last_stays(d, small(c));
    let x = without_lead(d);
    assert(x.push(c).last() == c);
    assert(x.push(small(c)).last() == small(c));
    assert(suffix_shift(c) == suffix_shift(small(c)));
}

/// `bits` are those of the double that is the whole number `v`.
pub open spec fn is_double_of(bits: u64, v: nat) -> bool {
    &&& !is_negative(bits)
    &&& 1 <= exponent(bits) <= 0x7fe
    &&& (0x10_0000_0000_0000 + fraction(bits)) as nat * pow2(exponent(bits) as nat) == v * pow2(1075)
}

/// How many bytes a suffix stands for.
pub open spec fn unit_of(c: char) -> nat {
    if c == 'k' || c == 'K' {
        1024
    } else if c == 'm' || c == 'M' {
        1024 * 1024
    } else if c == 'g' || c == 'G' {
        1024 * 1024 * 1024
    } else {
        1
    }
}

/// `n`, or the largest number that has room in 64 bits.
pub open spec fn at_most(n: nat) -> u64 {
    if n > u64::MAX {
        u64::MAX
    } else {
        n as u64
    }
}

/// The power of two that lies next below `v`, by its exponent.
proof fn lemma_magnitude(v: nat, k: nat) -> (e: nat)
    requires
        0 < v < pow2(k),
    ensures
        e < k,
        pow2(e) <= v < pow2(e + 1),
    decreases k,
{
    lemma2_to64();
    if k == 0 {
        0
    } else if v < pow2((k - 1) as nat) {
        lemma_magnitude(v, (k - 1) as nat)
    } else {
        (k - 1) as nat
    }
}

/// A whole number below `2^53` is a double.
pub proof fn whole_numbers_are_doubles(v: nat)
    requires
        0 < v < 0x20_0000_0000_0000,
    ensures
        exists|bits: u64| is_double_of(bits, v),
{
    lemma2_to64();
    lemma_pow2_adds(32, 20);
    lemma_pow2_adds(32, 21);
    let k = lemma_magnitude(v, 53);
    let up = pow2((52 - k) as nat);
    let m = v * up;
    lemma_pow2_adds(k, (52 - k) as nat);
    lemma_pow2_adds((k + 1) as nat, (52 - k) as nat);
    lemma_pow2_pos((52 - k) as nat);
    let (low, high) = (pow2(k), pow2((k + 1) as nat));
    assert(low * up <= m < high * up) by (nonlinear_arith)
        requires
            low <= v < high,
            m == v * up,
            up > 0,
    ;
    let f = (m - 0x10_0000_0000_0000) as u64;
    let e = (k + 1023) as u64;
    let bits = (e * 0x10_0000_0000_0000 + f) as u64;
    assert(bits / 0x10_0000_0000_0000 == e && bits % 0x10_0000_0000_0000 == f);
    lemma_pow2_adds((52 - k) as nat, (k + 1023) as nat);
    let (x, z) = (pow2((k + 1023) as nat), pow2(1075));
    assert(m * x == v * z) by (nonlinear_arith)
        requires
            m == v * up,
            z == up * x,
    ;
    assert(is_double_of(bits, v));
}

proof fn lemma_whole(m: nat, e: nat, v: nat, shift: nat)
    requires
        m * pow2(e) == v * pow2(1075),
    ensures
        whole_part(m, e - 1075 + shift) == v * pow2(shift),
{
    let p = e - 1075 + shift;
    let n = v * pow2(shift);
    lemma_pow2_adds(e, shift);
    let all = pow2(e + shift);
    let (x, y, z) = (pow2(e), pow2(shift), pow2(1075));
    assert(m * all == n * z) by (nonlinear_arith)
        requires
            m * x == v * z,
            all == x * y,
            n == v * y,
    ;
    if p >= 0 {
        let q = p as nat;
        lemma_pow2_adds(q, 1075);
        lemma_pow2_pos(1075);
        let k = pow2(q);
        assert(m * k == n) by (nonlinear_arith)
            requires
                m * all == n * z,
                all == k * z,
                z > 0,
        ;
    } else {
        let q = (-p) as nat;
        lemma_pow2_adds((e + shift) as nat, q);
        lemma_pow2_pos((e + shift) as nat);
        lemma_pow2_pos(q);
        let k = pow2(q);
        assert(m == n * k) by (nonlinear_arith)
            requires
                m * all == n * z,
                z == all * k,
                all > 0,
        ;
        assert((n * k) / k == n) by (nonlinear_arith)
            requires
                k > 0,
        ;
    }
}

proof fn lemma_scaled(bits: u64, v: nat, shift: u32)
    requires
        v > 0,
        is_double_of(bits, v),
    ensures
        is_positive(bits),
        scaled_whole(bits, shift) == at_most(v * pow2(shift as nat)),
{
    let m = (0x10_0000_0000_0000 + fraction(bits)) as nat;
    lemma_whole(m, exponent(bits) as nat, v, shift as nat);
    assert(bits != 0);
}

/// `d` is made of digits, at least one.
pub open spec fn is_digits(d: Seq<char>) -> bool {
    d.len() > 0 && forall|i: int| 0 <= i < d.len() ==> '0' <= #[trigger] d[i] <= '9'
}

/// A whole number with a suffix is that number times a power of 1024: the
/// number is what stands in front of the suffix, and white space around the
/// two does not matter. What has no room in 64 bits is the largest speed.
pub proof fn suffixes_multiply(
    before: Seq<char>,
    d: Seq<char>,
    c: char,
    behind: Seq<char>,
    bits: u64,
    v: nat,
)
    requires
        is_blank(before),
        is_digits(d),
        suffix_shift(c) is Some,
        is_blank(behind),
        v > 0,
        is_double_of(bits, v),
    ensures
        rate_split(trimmed(before + d.push(c) + behind)) == Some((d, suffix_shift(c).unwrap())),
        rate_of(before + d.push(c) + behind, Some(bits)) == Ok::<u64, Seq<char>>(
            at_most(v * unit_of(c)),
        ),
{
    white_space_around_is_free(before, d.push(c), behind, Some(bits));
    assert('0' <= d[0] <= '9');
    lemma_last_stays(d, c);
    assert(d.push(c).last() == c);
    assert(d.push(c).drop_last() =~= d);
    lemma_scaled(bits, v, suffix_shift(c).unwrap());
    lemma2_to64();
}

/// A whole number without a suffix is a speed in bytes, and white space around
/// it does not matter.
pub proof fn bare_numbers_are_bytes(
    before: Seq<char>,
    d: Seq<char>,
    behind: Seq<char>,
    bits: u64,
    v: nat,
)
    requires
        is_blank(before),
        is_digits(d),
        is_blank(behind),
        v > 0,
        is_double_of(bits, v),
    ensures
        rate_split(trimmed(before + d + behind)) == Some((d, 0u32)),
        rate_of(before + d + behind, Some(bits)) == Ok::<u64, Seq<char>>(at_most(v)),
{
    white_space_around_is_free(before, d, behind, Some(bits));
    assert('0' <= d[0] <= '9');
    assert('0' <= d[d.len() - 1] <= '9');
    assert(trimmed(d) == d);
    lemma_scaled(bits, v, 0);
    lemma2_to64();
}

} // verus!
