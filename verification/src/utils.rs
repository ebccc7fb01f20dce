//! Durations, speeds, answers and JSON.

use vstd::arithmetic::power2::{
    lemma2_to64, lemma_pow2_adds, lemma_pow2_pos, lemma_pow2_strictly_increases, lemma_pow2_unfold,
    pow2,
};
use vstd::prelude::*;
use vstd::string::*;

use crate::text::{
    append_dec, append_dec2, chars_of, dec, dec2, text_of, texts, trim, trim_range, trimmed,
};

verus! {

// ---------------------------------------------------------------------------
// Durations
// ---------------------------------------------------------------------------

/// A span of time.
#[derive(Debug, Clone, Copy, PartialEq, Eq, Structural)]
pub struct Elapsed {
    pub secs: u64,
    /// Less than a second.
    pub nanos: u32,
}

impl Elapsed {
    pub open spec fn wf(self) -> bool {
        self.nanos < 1_000_000_000
    }
}

/// The whole number nearest to `a / b`; of two, the even one.
pub open spec fn nearest(a: nat, b: nat) -> nat {
    let q = a / b;
    let r = a % b;
    if 2 * r < b || (2 * r == b && q % 2 == 0) {
        q
    } else {
        q + 1
    }
}

pub(crate) fn nearest_u128(a: u128, b: u128) -> (r: u128)
    requires
        0 < b < 0x8000_0000_0000_0000_0000_0000_0000_0000,
        a < 0x8000_0000_0000_0000_0000_0000_0000_0000,
    ensures
        r == nearest(a as nat, b as nat),
{
    let q: u128 = a / b;
    let m: u128 = a % b;
    assert(q <= a) by (nonlinear_arith)
        requires
            q == a / b,
            b > 0,
    ;
    if 2 * m < b || (2 * m == b && q % 2 == 0) {
        q
    } else {
        q + 1
    }
}

/// How often `n` is doubled until it reaches `floor`.
pub open spec fn doublings(n: nat, floor: nat) -> nat
    decreases
            if n < floor {
                floor - n
            } else {
                0
            },
{
    if n == 0 || n >= floor {
        0
    } else {
        1 + doublings(2 * n, floor)
    }
}

/// How often `n` is halved until it has at most 53 bits.
pub open spec fn halvings(n: nat) -> nat
    decreases n,
{
    if n < 0x20_0000_0000_0000 {
        0
    } else {
        1 + halvings(n / 2)
    }
}

/// `n`, rounded to the 53 bits that a double holds.
pub open spec fn to_double(n: nat) -> nat {
    nearest(n, pow2(halvings(n))) * pow2(halvings(n))
}

/// The quotient of two whole numbers as a double, as a numerator and the power
/// of two below it.
pub open spec fn double_quotient(a: nat, b: nat) -> (nat, nat) {
    let e = doublings(a, b * 0x10_0000_0000_0000);
    let h = halvings(a * pow2(e) / b);
    (nearest(a * pow2(e), b * pow2(h)) * pow2(h), e)
}

/// The seconds in a span of time as a double, as a numerator and the power of
/// two below it: the nanoseconds are divided, and the sum is taken, with the
/// rounding of doubles.
pub open spec fn double_seconds(secs: nat, nanos: nat) -> (nat, nat) {
    let e = doublings(nanos, 1_000_000_000 * 0x10_0000_0000_0000);
    let part = nearest(nanos * pow2(e), 1_000_000_000);
    (to_double(secs * pow2(e) + part), e)
}

/// The tenths of a second in a span of time, rounded from its seconds as a
/// double.
pub open spec fn tenths(secs: nat, nanos: nat) -> nat {
    let (n, e) = double_seconds(secs, nanos);
    nearest(n * 10, pow2(e))
}

/// A span of time in words: `4.2s`, `1m 15s` or `1:01:01`.
pub open spec fn duration_text(d: Elapsed) -> Seq<char> {
    let s = d.secs as nat;
    if s >= 3600 {
        dec(s / 3600) + ":"@ + dec2(s % 3600 / 60) + ":"@ + dec2(s % 60)
    } else if s >= 60 {
        dec(s / 60) + "m "@ + dec2(s % 60) + "s"@
    } else {
        let t = tenths(s, d.nanos as nat);
        dec(t / 10) + "."@ + dec(t % 10) + "s"@
    }
}

/// `n` halved until it has at most 53 bits, and put back: `n` as a double.
pub(crate) fn round_to_double(n: u128) -> (r: u128)
    requires
        n < 0x400_0000_0000_0000_0000_0000,
    ensures
        r == to_double(n as nat),
        r <= 2 * n,
        n > 0 ==> r > 0,
{
    let mut t: u128 = n;
    let mut p: u128 = 1;
    let ghost mut h: nat = 0;
    proof {
        lemma2_to64();
    }
    while t >= 0x20_0000_0000_0000
        invariant
            n < 0x400_0000_0000_0000_0000_0000,
            p == pow2(h),
            p >= 1,
            t * p <= n,
            n < (t + 1) * p,
            halvings(n as nat) == h + halvings(t as nat),
            p < 0x8000_0000_0000,
            t >= 1 || p == 1,
        decreases t,
    {
        proof {
            lemma_pow2_unfold(h + 1);
            assert(p < 0x4000_0000_0000) by (nonlinear_arith)
                requires
                    t * p <= n,
                    n < 0x400_0000_0000_0000_0000_0000,
                    t >= 0x20_0000_0000_0000,
            ;
            assert((t / 2) * (2 * p) <= n) by (nonlinear_arith)
                requires
                    t * p <= n,
                    p >= 1,
            ;
            assert(n < (t / 2 + 1) * (2 * p)) by (nonlinear_arith)
                requires
                    n < (t + 1) * p,
                    p >= 1,
            ;
            h = h + 1;
        }
        t = t / 2;
        p = p * 2;
    }
    let m: u128 = nearest_u128(n, p);
    proof {
        assert(m <= n / p + 1);
        assert(m * p <= n + p) by (nonlinear_arith)
            requires
                m <= n / p + 1,
                p >= 1,
        ;
        if p == 1 {
            assert(n / p == n && n % p == 0) by (nonlinear_arith)
                requires
                    p == 1,
            ;
        } else {
            assert(p <= n) by (nonlinear_arith)
                requires
                    t * p <= n,
                    t >= 1,
                    p >= 1,
            ;
        }
        if n > 0 {
            assert(n / p >= 1) by (nonlinear_arith)
                requires
                    p <= n,
                    p >= 1,
            ;
            assert(m * p > 0) by (nonlinear_arith)
                requires
                    m >= 1,
                    p >= 1,
            ;
        }
    }
    m * p
}

/// The tenths of a second in less than a minute.
fn count_tenths(secs: u64, nanos: u32) -> (r: u64)
    requires
        secs < 60,
        nanos < 1_000_000_000,
    ensures
        r == tenths(secs as nat, nanos as nat),
{
    let floor: u128 = 1_000_000_000 * 0x10_0000_0000_0000;
    let ghost n0 = nanos as nat;
    let mut x: u128 = nanos as u128;
    let mut p: u128 = 1;
    let ghost mut e: nat = 0;
    proof {
        lemma2_to64();
    }
    while x != 0 && x < floor
        invariant
            floor == 1_000_000_000 * 0x10_0000_0000_0000,
            n0 == nanos as nat,
            n0 < 1_000_000_000,
            p == pow2(e),
            p >= 1,
            x == n0 * p,
            n0 == 0 ==> e == 0,
            x < 2 * floor,
            doublings(n0, floor as nat) == e + doublings(x as nat, floor as nat),
        decreases 2 * floor - x,
    {
        proof {
            lemma_pow2_unfold(e + 1);
            assert(n0 * (2 * p) == 2 * (n0 * p)) by (nonlinear_arith);
            assert(p <= x) by (nonlinear_arith)
                requires
                    x == n0 * p,
                    n0 >= 1,
            ;
            e = e + 1;
        }
        x = x * 2;
        p = p * 2;
    }
    proof {
        if n0 > 0 {
            assert(p <= x) by (nonlinear_arith)
                requires
                    x == n0 * p,
                    n0 >= 1,
            ;
        }
        assert(p < 2 * floor);
        assert(doublings(n0, floor as nat) == e);
        assert(x as nat == n0 * pow2(e));
    }
    let part: u128 = nearest_u128(x, 1_000_000_000);
    proof {
        assert(x < 1_000_000_000 * p) by (nonlinear_arith)
            requires
                x == n0 * p,
                n0 < 1_000_000_000,
                p >= 1,
        ;
        assert(part <= p);
        assert(secs * p <= 59 * p) by (nonlinear_arith)
            requires
                secs <= 59,
                p >= 1,
        ;
    }
    let sum: u128 = (secs as u128) * p + part;
    let value: u128 = round_to_double(sum);
    let r: u128 = nearest_u128(value * 10, p);
    proof {
        let a = value * 10;
        assert(a / (p as int) <= 1200) by (nonlinear_arith)
            requires
                a <= 1200 * p,
                p >= 1,
        ;
    }
    r as u64
}

/// A span of time in words.
pub fn format_duration(d: Elapsed) -> (r: String)
    requires
        d.wf(),
    ensures
        r@ == duration_text(d),
{
    let secs: u64 = d.secs;
    let mut s: String = String::new();
    if secs >= 3600 {
        append_dec(&mut s, secs / 3600);
        s.append(":");
        append_dec2(&mut s, secs % 3600 / 60);
        s.append(":");
        append_dec2(&mut s, secs % 60);
    } else if secs >= 60 {
        append_dec(&mut s, secs / 60);
        s.append("m ");
        append_dec2(&mut s, secs % 60);
        s.append("s");
    } else {
        let t: u64 = count_tenths(secs, d.nanos);
        append_dec(&mut s, t / 10);
        s.append(".");
        append_dec(&mut s, t % 10);
        s.append("s");
    }
    assert(s@ =~= duration_text(d));
    s
}

// ---------------------------------------------------------------------------
// Speeds
// ---------------------------------------------------------------------------

/// A speed as it is written: a number, and the power of two that it is
/// multiplied by.
#[derive(Debug)]
pub struct RateParts {
    pub number: String,
    pub shift: u32,
}

/// The power of two that a suffix stands for.
pub open spec fn suffix_shift(c: char) -> Option<u32> {
    if c == 'k' || c == 'K' {
        Some(10)
    } else if c == 'm' || c == 'M' {
        Some(20)
    } else if c == 'g' || c == 'G' {
        Some(30)
    } else if c == 'b' || c == 'B' {
        Some(0)
    } else {
        None
    }
}

/// `c` is one of the letters from a to z.
pub open spec fn is_letter(c: char) -> bool {
    'a' <= c <= 'z' || 'A' <= c <= 'Z'
}

/// `s`, without white space around it, ends with a letter.
pub open spec fn has_suffix(s: Seq<char>) -> bool {
    s.len() > 0 && is_letter(s.last())
}

/// What is said of a suffix that nobody knows.
pub open spec fn unknown_suffix(c: char) -> Seq<char> {
    "suffixe inconnu : '"@ + seq![c] + "'"@
}

/// What is said of a speed that is no number.
pub open spec fn invalid_rate(s: Seq<char>) -> Seq<char> {
    "débit invalide : '"@ + s + "'"@
}

/// What is said of a speed that is not positive.
pub open spec fn unpositive_rate(s: Seq<char>) -> Seq<char> {
    "le débit doit être positif : '"@ + s + "'"@
}

/// The number in `s` and what it is multiplied by, if the suffix is known.
pub open spec fn rate_split(s: Seq<char>) -> Option<(Seq<char>, u32)> {
    if has_suffix(s) {
        match suffix_shift(s.last()) {
            Some(shift) => Some((s.drop_last(), shift)),
            None => None,
        }
    } else {
        Some((s, 0))
    }
}

/// Takes a speed apart: the number in front, and its suffix (`k`, `m` and `g`
/// count in 1024; `b` stands for one byte).
pub fn rate_parts(s: &str) -> (r: Result<RateParts, String>)
    ensures
        match rate_split(trimmed(s@)) {
            Some((number, shift)) => r is Ok && r->Ok_0.number@ == number && r->Ok_0.shift == shift,
            None => r is Err && r->Err_0@ == unknown_suffix(trimmed(s@).last()),
        },
{
    let v: Vec<char> = chars_of(s);
    assert(v@.subrange(0, v@.len() as int) =~= v@);
    let (from, to): (usize, usize) = trim_range(&v, 0, v.len());
    let ghost t = trimmed(s@);
    assert(v@.subrange(from as int, to as int) == t);
    if from == to {
        return Ok(RateParts { number: text_of(&v, from, to), shift: 0 });
    }
    let c: char = v[to - 1];
    assert(t.last() == c);
    if !(('a' <= c && c <= 'z') || ('A' <= c && c <= 'Z')) {
        return Ok(RateParts { number: text_of(&v, from, to), shift: 0 });
    }
    let shift: u32 = if c == 'k' || c == 'K' {
        10
    } else if c == 'm' || c == 'M' {
        20
    } else if c == 'g' || c == 'G' {
        30
    } else if c == 'b' || c == 'B' {
        0
    } else {
        let mut msg: String = "suffixe inconnu : '".to_owned();
        msg.push(c);
        msg.append("'");
        assert(msg@ =~= unknown_suffix(c));
        return Err(msg);
    };
    assert(v@.subrange(from as int, to - 1) =~= t.drop_last());
    Ok(RateParts { number: text_of(&v, from, to - 1), shift })
}

/// The bits of a double: the sign.
pub open spec fn is_negative(bits: u64) -> bool {
    bits >= 0x8000_0000_0000_0000
}

/// The bits of a double: the exponent.
pub open spec fn exponent(bits: u64) -> int {
    (bits / 0x10_0000_0000_0000 % 0x800) as int
}

/// The bits of a double: the fraction.
pub open spec fn fraction(bits: u64) -> int {
    (bits % 0x10_0000_0000_0000) as int
}

/// The double is a number above zero, or infinite.
pub open spec fn is_positive(bits: u64) -> bool {
    &&& !is_negative(bits)
    &&& bits != 0
    &&& !(exponent(bits) == 0x7ff && fraction(bits) != 0)
}

/// The whole part of `m * 2^p`.
pub open spec fn whole_part(m: nat, p: int) -> nat {
    if p >= 0 {
        m * pow2(p as nat)
    } else {
        m / pow2((-p) as nat)
    }
}

/// The whole part of a positive double that is multiplied by `2^shift`; one
/// that is too large for 64 bits gives the largest number.
pub open spec fn scaled_whole(bits: u64, shift: u32) -> u64 {
    let e = exponent(bits);
    let f = fraction(bits);
    let n = if e == 0 {
        whole_part(f as nat, shift - 1074)
    } else {
        whole_part((0x10_0000_0000_0000 + f) as nat, e - 1075 + shift)
    };
    if e == 0x7ff || n > u64::MAX {
        u64::MAX
    } else {
        n as u64
    }
}

/// `2^n`.
fn power(n: u32) -> (r: u128)
    requires
        n <= 64,
    ensures
        r == pow2(n as nat),
        r <= 0x1_0000_0000_0000_0000,
{
    let mut p: u128 = 1;
    let mut i: u32 = 0;
    proof {
        lemma2_to64();
    }
    while i < n
        invariant
            i <= n <= 64,
            p == pow2(i as nat),
            p <= 0x1_0000_0000_0000_0000,
        decreases n - i,
    {
        proof {
            lemma_pow2_unfold((i + 1) as nat);
            lemma2_to64();
            if i + 1 < 64 {
                lemma_pow2_strictly_increases((i + 1) as nat, 64);
            }
        }
        p = p * 2;
        i = i + 1;
    }
    p
}

/// The whole part of `m * 2^p`, if it has room in 64 bits.
fn whole(m: u64, p: i32) -> (r: Option<u64>)
    requires
        m < 0x20_0000_0000_0000,
        -4000 < p < 4000,
    ensures
        match r {
            Some(n) => n == whole_part(m as nat, p as int),
            None => whole_part(m as nat, p as int) > u64::MAX,
        },
{
    proof {
        lemma2_to64();
    }
    if p >= 0 {
        if m == 0 {
            assert(0 * pow2(p as nat) == 0) by (nonlinear_arith);
            return Some(0);
        }
        if p >= 64 {
            proof {
                lemma_pow2_adds(64, (p - 64) as nat);
                lemma_pow2_pos((p - 64) as nat);
                let a = pow2(64);
                let b = pow2((p - 64) as nat);
                assert(m * (a * b) >= a) by (nonlinear_arith)
                    requires
                        m >= 1,
                        a >= 1,
                        b >= 1,
                ;
            }
            return None;
        }
        let k: u128 = power(p as u32);
        assert((m as u128) * k <= 0x20_0000_0000_0000 * 0x1_0000_0000_0000_0000) by (nonlinear_arith)
            requires
                m < 0x20_0000_0000_0000,
                k <= 0x1_0000_0000_0000_0000,
        ;
        let n: u128 = (m as u128) * k;
        if n > u64::MAX as u128 {
            None
        } else {
            Some(n as u64)
        }
    } else {
        if p <= -64 {
            proof {
                let q = (-p) as nat;
                lemma_pow2_adds(64, (q - 64) as nat);
                lemma_pow2_pos((q - 64) as nat);
                let a = pow2(64);
                let b = pow2((q - 64) as nat);
                assert(a * b >= a) by (nonlinear_arith)
                    requires
                        a >= 1,
                        b >= 1,
                ;
                assert(m as nat / pow2(q) == 0) by (nonlinear_arith)
                    requires
                        m < pow2(q),
                ;
            }
            return Some(0);
        }
        let k: u128 = power((-p) as u32);
        proof {
            lemma_pow2_pos((-p) as nat);
            assert(m as u128 / k <= m) by (nonlinear_arith)
                requires
                    k >= 1,
            ;
        }
        Some(((m as u128) / k) as u64)
    }
}

/// The whole part of a positive double that is multiplied by `2^shift`.
fn scale(bits: u64, shift: u32) -> (r: u64)
    requires
        shift <= 30,
    ensures
        r == scaled_whole(bits, shift),
{
    let e: u64 = bits / 0x10_0000_0000_0000 % 0x800;
    let f: u64 = bits % 0x10_0000_0000_0000;
    let n: Option<u64> = if e == 0 {
        whole(f, shift as i32 - 1074)
    } else {
        whole(0x10_0000_0000_0000 + f, e as i32 - 1075 + shift as i32)
    };
    match n {
        Some(x) => {
            if e == 0x7ff {
                u64::MAX
            } else {
                x
            }
        },
        None => u64::MAX,
    }
}

/// The speed that `s` stands for, in bytes a second, or what is said of it;
/// `number` is what the number in front reads as.
pub open spec fn rate_of(s: Seq<char>, number: Option<u64>) -> Result<u64, Seq<char>> {
    let t = trimmed(s);
    match rate_split(t) {
        None => Err(unknown_suffix(t.last())),
        Some((_, shift)) => match number {
            None => Err(invalid_rate(t)),
            Some(bits) => if is_positive(bits) {
                Ok(scaled_whole(bits, shift))
            } else {
                Err(unpositive_rate(t))
            },
        },
    }
}

/// Reads a speed in bytes a second, such as `10m`, `512k` or `1.5g`. `number`
/// is what the number in front reads as: the bits of a double, or nothing when
/// it is no number.
pub fn parse_rate(s: &str, number: Option<u64>) -> (r: Result<u64, String>)
    ensures
        match rate_of(s@, number) {
            Ok(n) => r == Ok::<u64, String>(n),
            Err(m) => r is Err && r->Err_0@ == m,
        },
{
    let parts: RateParts = match rate_parts(s) {
        Ok(p) => p,
        Err(e) => {
            return Err(e);
        },
    };
    let bits: u64 = match number {
        Some(b) => b,
        None => {
            let t: String = trim(s);
            let mut msg: String = "débit invalide : '".to_owned();
            msg.append(t.as_str());
            msg.append("'");
            return Err(msg);
        },
    };
    let e: u64 = bits / 0x10_0000_0000_0000 % 0x800;
    let f: u64 = bits % 0x10_0000_0000_0000;
    if bits >= 0x8000_0000_0000_0000 || bits == 0 || (e == 0x7ff && f != 0) {
        let t: String = trim(s);
        let mut msg: String = "le débit doit être positif : '".to_owned();
        msg.append(t.as_str());
        msg.append("'");
        return Err(msg);
    }
    Ok(scale(bits, parts.shift))
}

// ---------------------------------------------------------------------------
// Answers
// ---------------------------------------------------------------------------

/// The answer says yes: `y` or, in French, `o`.
pub open spec fn says_yes(line: Seq<char>) -> bool {
    let t = trimmed(line);
    t.len() > 0 && (t[0] == 'y' || t[0] == 'Y' || t[0] == 'o' || t[0] == 'O')
}

/// Whether an answer allows to overwrite a file; without an answer, nothing is
/// overwritten.
pub fn confirms(line: Option<&str>) -> (r: bool)
    ensures
        r == (line is Some && says_yes(line.unwrap()@)),
{
    let text: &str = match line {
        Some(t) => t,
        None => {
            return false;
        },
    };
    let v: Vec<char> = chars_of(text);
    assert(v@.subrange(0, v@.len() as int) =~= v@);
    let (from, to): (usize, usize) = trim_range(&v, 0, v.len());
    let ghost t = trimmed(text@);
    assert(v@.subrange(from as int, to as int) == t);
    if from == to {
        return false;
    }
    let c: char = v[from];
    assert(t[0] == c);
    c == 'y' || c == 'Y' || c == 'o' || c == 'O'
}

// ---------------------------------------------------------------------------
// JSON
// ---------------------------------------------------------------------------

/// A digit in base sixteen.
pub open spec fn hex_digit(d: int) -> char {
    if d < 10 {
        (48 + d) as char
    } else {
        (87 + d) as char
    }
}

/// How a character stands in a JSON string.
pub open spec fn escape_of(c: char) -> Seq<char> {
    if c == '"' {
        seq!['\\', '"']
    } else if c == '\\' {
        seq!['\\', '\\']
    } else if c == '\n' {
        seq!['\\', 'n']
    } else if c == '\r' {
        seq!['\\', 'r']
    } else if c == '\t' {
        seq!['\\', 't']
    } else if c <= '\u{1f}' {
        seq!['\\', 'u', '0', '0', hex_digit(c as int / 16), hex_digit(c as int % 16)]
    } else {
        seq![c]
    }
}

/// How a text stands in a JSON string.
pub open spec fn escaped(s: Seq<char>) -> Seq<char>
    decreases s.len(),
{
    if s.len() == 0 {
        Seq::empty()
    } else {
        escaped(s.drop_last()) + escape_of(s.last())
    }
}

fn hex(d: u8) -> (c: char)
    requires
        d < 16,
    ensures
        c == hex_digit(d as int),
{
    if d < 10 {
        (48 + d) as char
    } else {
        (87 + d) as char
    }
}

/// Appends the character as it stands in a JSON string.
fn append_escape(out: &mut String, c: char)
    ensures
        final(out)@ == old(out)@ + escape_of(c),
{
    if c == '"' {
        out.push('\\');
        out.push('"');
    } else if c == '\\' {
        out.push('\\');
        out.push('\\');
    } else if c == '\n' {
        out.push('\\');
        out.push('n');
    } else if c == '\r' {
        out.push('\\');
        out.push('r');
    } else if c == '\t' {
        out.push('\\');
        out.push('t');
    } else if c <= '\u{1f}' {
        let u: u32 = c as u32;
        out.push('\\');
        out.push('u');
        out.push('0');
        out.push('0');
        out.push(hex((u / 16) as u8));
        out.push(hex((u % 16) as u8));
    } else {
        out.push(c);
    }
    assert(out@ =~= old(out)@ + escape_of(c));
}

/// How a text stands in a JSON string.
pub fn json_escape(s: &str) -> (r: String)
    ensures
        r@ == escaped(s@),
{
    let v: Vec<char> = chars_of(s);
    let mut out: String = String::new();
    let mut i: usize = 0;
    assert(v@.take(0) =~= Seq::empty());
    assert(out@ =~= Seq::empty());
    while i < v.len()
        invariant
            i <= v@.len(),
            out@ == escaped(v@.take(i as int)),
        decreases v@.len() - i,
    {
        assert(v@.take(i + 1).drop_last() =~= v@.take(i as int));
        append_escape(&mut out, v[i]);
        i = i + 1;
    }
    assert(v@.take(i as int) =~= v@);
    out
}

/// Texts as JSON strings, with a comma between each two.
pub open spec fn json_strings(list: Seq<Seq<char>>) -> Seq<char>
    decreases list.len(),
{
    if list.len() == 0 {
        Seq::empty()
    } else {
        let before = json_strings(list.drop_last());
        let sep = if list.len() > 1 {
            seq![',']
        } else {
            Seq::empty()
        };
        before + sep + seq!['"'] + escaped(list.last()) + seq!['"']
    }
}

/// Texts as a JSON array of strings.
pub open spec fn json_array(list: Seq<Seq<char>>) -> Seq<char> {
    seq!['['] + json_strings(list) + seq![']']
}

/// Texts as a JSON array of strings.
pub fn json_string_array(list: &Vec<String>) -> (r: String)
    ensures
        r@ == json_array(texts(list@)),
{
    let ghost all = texts(list@);
    let mut out: String = String::new();
    out.push('[');
    let mut i: usize = 0;
    assert(all.take(0) =~= Seq::empty());
    assert(out@ =~= seq!['['] + json_strings(all.take(0)));
    while i < list.len()
        invariant
            i <= list@.len(),
            all == texts(list@),
            out@ == seq!['['] + json_strings(all.take(i as int)),
        decreases list@.len() - i,
    {
        proof {
            assert(all.take(i + 1).drop_last() =~= all.take(i as int));
            assert(all.take(i + 1).last() == list@[i as int]@);
        }
        if i > 0 {
            out.push(',');
        }
        out.push('"');
        let e: String = json_escape(list[i].as_str());
        out.append(e.as_str());
        out.push('"');
        assert(out@ =~= seq!['['] + json_strings(all.take(i + 1)));
        i = i + 1;
    }
    assert(all.take(i as int) =~= all);
    out.push(']');
    assert(out@ =~= json_array(all));
    out
}

/// What a digit in base sixteen stands for.
pub open spec fn hex_value(c: char) -> Option<int> {
    if '0' <= c <= '9' {
        Some(c as int - 48)
    } else if 'a' <= c <= 'f' {
        Some(c as int - 87)
    } else {
        None
    }
}

/// The character that a JSON string starts with, and how many characters it
/// takes there.
pub open spec fn first_of(s: Seq<char>) -> Option<(char, int)> {
    if s.len() == 0 || s[0] == '"' || s[0] <= '\u{1f}' {
        None
    } else if s[0] != '\\' {
        Some((s[0], 1))
    } else if s.len() < 2 {
        None
    } else if s[1] == '"' {
        Some(('"', 2))
    } else if s[1] == '\\' {
        Some(('\\', 2))
    } else if s[1] == 'n' {
        Some(('\n', 2))
    } else if s[1] == 'r' {
        Some(('\r', 2))
    } else if s[1] == 't' {
        Some(('\t', 2))
    } else if s[1] == 'u' && s.len() >= 6 && s[2] == '0' && s[3] == '0' && hex_value(s[4]) is Some
        && hex_value(s[5]) is Some {
        Some(((16 * hex_value(s[4]).unwrap() + hex_value(s[5]).unwrap()) as char, 6))
    } else {
        None
    }
}

/// The text that a JSON string stands for.
pub open spec fn unescaped(s: Seq<char>) -> Option<Seq<char>>
    decreases s.len(),
{
    if s.len() == 0 {
        Some(Seq::empty())
    } else {
        match first_of(s) {
            Some((c, n)) => if 0 < n <= s.len() {
                match unescaped(s.skip(n)) {
                    Some(rest) => Some(seq![c] + rest),
                    None => None,
                }
            } else {
                None
            },
            None => None,
        }
    }
}

proof fn lemma_first_of(c: char, rest: Seq<char>)
    ensures
        first_of(escape_of(c) + rest) == Some((c, escape_of(c).len() as int)),
        (escape_of(c) + rest).skip(escape_of(c).len() as int) == rest,
{
    let s = escape_of(c) + rest;
    assert(s.skip(escape_of(c).len() as int) =~= rest);
    assert forall|i: int| 0 <= i < escape_of(c).len() implies s[i] == escape_of(c)[i] by {}
    if c <= '\u{1f}' && c != '\n' && c != '\r' && c != '\t' {
        assert(s[0] == '\\' && s[1] == 'u' && s[2] == '0' && s[3] == '0');
        assert(s[4] == hex_digit(c as int / 16) && s[5] == hex_digit(c as int % 16));
        assert(hex_value(hex_digit(c as int / 16)) == Some(c as int / 16));
        assert(hex_value(hex_digit(c as int % 16)) == Some(c as int % 16));
    }
}

proof fn lemma_escaped_first(s: Seq<char>)
    requires
        s.len() > 0,
    ensures
        escaped(s) == escape_of(s[0]) + escaped(s.skip(1)),
    decreases s.len(),
{
    if s.len() == 1 {
        assert(s.drop_last() =~= Seq::empty());
        assert(s.skip(1) =~= Seq::empty());
        assert(escaped(s) =~= escape_of(s[0]) + escaped(s.skip(1)));
    } else {
        lemma_escaped_first(s.drop_last());
        assert(s.drop_last().skip(1) =~= s.skip(1).drop_last());
        assert(escaped(s) =~= escape_of(s[0]) + escaped(s.skip(1)));
    }
}

/// A text that is put into a JSON string can be read back, whatever it holds.
pub proof fn json_text_reads_back(s: Seq<char>)
    ensures
        unescaped(escaped(s)) == Some(s),
    decreases s.len(),
{
    if s.len() > 0 {
        lemma_escaped_first(s);
        lemma_first_of(s[0], escaped(s.skip(1)));
        json_text_reads_back(s.skip(1));
        assert(seq![s[0]] + s.skip(1) =~= s);
    }
}

} // verus!
