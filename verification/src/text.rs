//! Text: decimal numbers, trimming, and how paths are shown.

use vstd::prelude::*;
use vstd::string::*;

use crate::path::RawPath;

verus! {

// ---------------------------------------------------------------------------
// What std gives
// ---------------------------------------------------------------------------

/// `String::push` puts the character behind the others.
pub assume_specification[ String::push ](s: &mut String, c: char)
    ensures
        final(s)@ == old(s)@.push(c),
;

/// What `String::from_utf8_lossy` makes of bytes.
pub uninterp spec fn utf8_lossy(b: Seq<u8>) -> Seq<char>;

/// Calls `String::from_utf8_lossy`. Its result depends on the bytes alone, and
/// bytes that are UTF-8 are decoded as they stand. What stands for bytes that
/// are not UTF-8 is left to the name `utf8_lossy`.
#[verifier::external_body]
fn from_utf8_lossy(b: &[u8]) -> (r: String)
    ensures
        r@ == utf8_lossy(b@),
        vstd::utf8::valid_utf8(b@) ==> r@ == vstd::utf8::decode_utf8(b@),
{
    String::from_utf8_lossy(b).into_owned()
}

/// What `humansize::format_size` makes of a number of bytes with its options
/// `DECIMAL`.
pub uninterp spec fn human_size(n: u64) -> Seq<char>;

/// Calls `humansize::format_size` with its options `DECIMAL`. The text depends
/// on the number alone.
#[verifier::external_body]
pub(crate) fn size_text(n: u64) -> (r: String)
    ensures
        r@ == human_size(n),
{
    humansize::format_size(n, humansize::DECIMAL)
}

/// The text that stands for a path in a message: what its bytes encode, when
/// they encode a text.
pub open spec fn shown(p: Seq<u8>) -> Seq<char> {
    if vstd::utf8::valid_utf8(p) {
        vstd::utf8::decode_utf8(p)
    } else {
        utf8_lossy(p)
    }
}

/// The text that stands for `p` in a message.
pub fn display(p: &RawPath) -> (r: String)
    ensures
        r@ == shown(p@),
{
    from_utf8_lossy(p.bytes.as_slice())
}

/// The text of a file name, with a mark in place of what is no text.
pub fn name_text(name: &[u8]) -> (r: String)
    ensures
        r@ == shown(name@),
{
    from_utf8_lossy(name)
}

/// A path between quotes.
pub open spec fn quoted(p: Seq<u8>) -> Seq<char> {
    "'"@ + shown(p) + "'"@
}

/// Appends the path `p`, between quotes.
pub fn append_quoted(s: &mut String, p: &RawPath)
    ensures
        final(s)@ == old(s)@ + quoted(p@),
{
    let shown_path: String = display(p);
    s.append("'");
    s.append(shown_path.as_str());
    s.append("'");
    assert(s@ =~= old(s)@ + quoted(p@));
}

// ---------------------------------------------------------------------------
// Characters
// ---------------------------------------------------------------------------

/// The characters of `s`.
pub fn chars_of(s: &str) -> (r: Vec<char>)
    ensures
        r@ == s@,
{
    let mut r: Vec<char> = Vec::new();
    for c in it: s.chars()
        invariant
            r@ == it.seq().take(it.index() as int),
            it.seq() == s@,
    {
        r.push(c);
        assert(r@ =~= it.seq().take(it.index() + 1));
    }
    assert(r@ =~= s@);
    r
}

/// The characters of `v` from `from` up to, not including, `to`, as text.
pub fn text_of(v: &Vec<char>, from: usize, to: usize) -> (r: String)
    requires
        from <= to <= v@.len(),
    ensures
        r@ == v@.subrange(from as int, to as int),
{
    let mut r: String = String::new();
    let mut i: usize = from;
    assert(r@ =~= v@.subrange(from as int, from as int));
    while i < to
        invariant
            from <= i <= to <= v@.len(),
            r@ == v@.subrange(from as int, i as int),
        decreases to - i,
    {
        r.push(v[i]);
        i = i + 1;
        assert(r@ =~= v@.subrange(from as int, i as int));
    }
    r
}

/// The characters with the Unicode property White_Space.
pub open spec fn is_space(c: char) -> bool {
    let u = c as u32;
    ||| 0x9 <= u <= 0xd
    ||| u == 0x20
    ||| u == 0x85
    ||| u == 0xa0
    ||| u == 0x1680
    ||| 0x2000 <= u <= 0x200a
    ||| u == 0x2028
    ||| u == 0x2029
    ||| u == 0x202f
    ||| u == 0x205f
    ||| u == 0x3000
}

/// Whether `c` has the Unicode property White_Space.
pub fn is_whitespace(c: char) -> (r: bool)
    ensures
        r == is_space(c),
{
    let u: u32 = c as u32;
    (0x9 <= u && u <= 0xd) || u == 0x20 || u == 0x85 || u == 0xa0 || u == 0x1680 || (0x2000 <= u
        && u <= 0x200a) || u == 0x2028 || u == 0x2029 || u == 0x202f || u == 0x205f || u == 0x3000
}

/// `s` without the white space at its two ends.
pub open spec fn trimmed(s: Seq<char>) -> Seq<char>
    decreases s.len(),
{
    if s.len() == 0 {
        s
    } else if is_space(s[0]) {
        trimmed(s.skip(1))
    } else if is_space(s.last()) {
        trimmed(s.drop_last())
    } else {
        s
    }
}

/// Where the text that is left of `v[from..to]` without the white space at its
/// two ends starts and ends.
pub fn trim_range(v: &Vec<char>, from: usize, to: usize) -> (r: (usize, usize))
    requires
        from <= to <= v@.len(),
    ensures
        from <= r.0 <= r.1 <= to,
        v@.subrange(r.0 as int, r.1 as int) == trimmed(v@.subrange(from as int, to as int)),
{
    let ghost whole = trimmed(v@.subrange(from as int, to as int));
    let mut a: usize = from;
    let mut b: usize = to;
    while a < b && is_whitespace(v[a])
        invariant
            from <= a <= b <= to <= v@.len(),
            b == to,
            whole == trimmed(v@.subrange(a as int, b as int)),
        decreases b - a,
    {
        assert(v@.subrange(a as int, b as int).skip(1) =~= v@.subrange(a + 1, b as int));
        a = a + 1;
    }
    while a < b && is_whitespace(v[b - 1])
        invariant
            from <= a <= b <= to <= v@.len(),
            a < b ==> !is_space(v@[a as int]),
            whole == trimmed(v@.subrange(a as int, b as int)),
        decreases b - a,
    {
        assert(v@.subrange(a as int, b as int).drop_last() =~= v@.subrange(a as int, b - 1));
        b = b - 1;
    }
    (a, b)
}

/// `s` without the white space at its two ends.
pub fn trim(s: &str) -> (r: String)
    ensures
        r@ == trimmed(s@),
{
    let v: Vec<char> = chars_of(s);
    let (a, b): (usize, usize) = trim_range(&v, 0, v.len());
    assert(v@.subrange(0, v@.len() as int) =~= v@);
    text_of(&v, a, b)
}

/// The stretches of `s` between occurrences of `sep`: one more than there are
/// occurrences.
pub open spec fn pieces(s: Seq<char>, sep: char) -> Seq<Seq<char>>
    decreases s.len(),
{
    if s.len() == 0 {
        seq![s]
    } else if s.last() == sep {
        pieces(s.drop_last(), sep).push(Seq::empty())
    } else {
        let before = pieces(s.drop_last(), sep);
        before.drop_last().push(before.last().push(s.last()))
    }
}

/// The texts of `v`.
pub open spec fn texts(v: Seq<String>) -> Seq<Seq<char>> {
    v.map_values(|s: String| s@)
}

/// The stretches of `s` between occurrences of `sep`.
pub fn split(s: &str, sep: char) -> (r: Vec<String>)
    ensures
        texts(r@) == pieces(s@, sep),
{
    let v: Vec<char> = chars_of(s);
    let ghost t = s@;
    let mut out: Vec<String> = Vec::new();
    let mut current: String = String::new();
    let mut i: usize = 0;
    assert(t.take(0) =~= Seq::empty());
    assert(texts(out@).push(current@) =~= pieces(t.take(0), sep));
    while i < v.len()
        invariant
            v@ == t,
            i <= v@.len(),
            texts(out@).push(current@) == pieces(t.take(i as int), sep),
        decreases v@.len() - i,
    {
        let ghost before = texts(out@).push(current@);
        let ghost held = texts(out@);
        let c: char = v[i];
        proof {
            let next = t.take(i + 1);
            assert(next.drop_last() =~= t.take(i as int));
            assert(next.last() == c);
        }
        if c == sep {
            let ghost done = current@;
            out.push(current);
            current = String::new();
            assert(texts(out@) =~= held.push(done));
            assert(texts(out@).push(current@) =~= before.push(Seq::empty()));
        } else {
            current.push(c);
            assert(before.drop_last() =~= held);
            assert(texts(out@).push(current@) =~= before.drop_last().push(before.last().push(c)));
        }
        i = i + 1;
    }
    assert(t.take(i as int) =~= t);
    let ghost held = texts(out@);
    let ghost last = current@;
    out.push(current);
    assert(texts(out@) =~= held.push(last));
    out
}

/// Whether the two texts are the same.
pub fn same_text(a: &str, b: &str) -> (r: bool)
    ensures
        r == (a@ == b@),
{
    let x: String = a.to_owned();
    let y: String = b.to_owned();
    x == y
}

// ---------------------------------------------------------------------------
// Decimal numbers
// ---------------------------------------------------------------------------

/// The character of a decimal digit.
pub open spec fn digit_char(d: nat) -> char {
    (48 + d) as char
}

/// `n` in decimal, without leading zeros.
pub open spec fn dec(n: nat) -> Seq<char>
    decreases n,
{
    if n < 10 {
        seq![digit_char(n)]
    } else {
        dec(n / 10).push(digit_char(n % 10))
    }
}

/// `c` is a decimal digit.
pub open spec fn is_digit(c: char) -> bool {
    '0' <= c <= '9'
}

/// The number that the digits `s` stand for.
pub open spec fn dec_value(s: Seq<char>) -> nat
    decreases s.len(),
{
    if s.len() == 0 {
        0
    } else {
        dec_value(s.drop_last()) * 10 + (s.last() as u32 - 48) as nat
    }
}

/// `s` holds digits only.
pub open spec fn all_digits(s: Seq<char>) -> bool {
    forall|i: int| 0 <= i < s.len() ==> is_digit(#[trigger] s[i])
}

/// Reading back a number in decimal gives the number.
pub proof fn dec_reads_back(n: nat)
    ensures
        dec_value(dec(n)) == n,
        all_digits(dec(n)),
        dec(n).len() > 0,
    decreases n,
{
    if n < 10 {
        let s = dec(n);
        assert(s.drop_last() =~= Seq::empty());
        assert(dec_value(s.drop_last()) == 0);
    } else {
        dec_reads_back(n / 10);
        let s = dec(n);
        assert(s.drop_last() =~= dec(n / 10));
    }
}

/// The decimal digit `d`.
fn digit(d: u8) -> (c: char)
    requires
        d < 10,
    ensures
        c == digit_char(d as nat),
{
    (48 + d) as char
}

/// Appends `n` in decimal.
pub fn append_dec(s: &mut String, n: u64)
    ensures
        final(s)@ == old(s)@ + dec(n as nat),
    decreases n,
{
    if n < 10 {
        s.push(digit(n as u8));
        assert(s@ =~= old(s)@ + dec(n as nat));
    } else {
        append_dec(s, n / 10);
        s.push(digit((n % 10) as u8));
        assert(s@ =~= old(s)@ + dec(n as nat));
    }
}

/// `n`, which is under a hundred, in two digits.
pub open spec fn dec2(n: nat) -> Seq<char> {
    seq![digit_char(n / 10), digit_char(n % 10)]
}

/// Appends `n` in two digits.
pub fn append_dec2(s: &mut String, n: u64)
    requires
        n < 100,
    ensures
        final(s)@ == old(s)@ + dec2(n as nat),
{
    s.push(digit((n / 10) as u8));
    s.push(digit((n % 10) as u8));
    assert(s@ =~= old(s)@ + dec2(n as nat));
}

/// What `s` reads as: decimal digits, behind a plus sign or not, up to the
/// largest 32-bit number.
pub open spec fn u32_read(s: Seq<char>) -> Option<u32> {
    let d = if s.len() > 0 && s[0] == '+' {
        s.skip(1)
    } else {
        s
    };
    if d.len() > 0 && all_digits(d) && dec_value(d) <= u32::MAX {
        Some(dec_value(d) as u32)
    } else {
        None
    }
}

/// A longer run of digits stands for no smaller number.
proof fn lemma_dec_value_grows(s: Seq<char>, i: int)
    requires
        0 <= i <= s.len(),
        all_digits(s),
    ensures
        dec_value(s.take(i)) <= dec_value(s),
    decreases s.len() - i,
{
    if i == s.len() {
        assert(s.take(i) =~= s);
    } else {
        lemma_dec_value_grows(s, i + 1);
        let t = s.take(i + 1);
        assert(t.drop_last() =~= s.take(i));
        assert(is_digit(s[i]));
    }
}

/// Reads the number in `v[from..to]`.
pub fn read_u32(v: &Vec<char>, from: usize, to: usize) -> (r: Option<u32>)
    requires
        from <= to <= v@.len(),
    ensures
        r == u32_read(v@.subrange(from as int, to as int)),
{
    let ghost s = v@.subrange(from as int, to as int);
    let first: usize = if from < to && v[from] == '+' {
        from + 1
    } else {
        from
    };
    let ghost d = v@.subrange(first as int, to as int);
    proof {
        if from < to && v@[from as int] == '+' {
            assert(d =~= s.skip(1));
        } else {
            assert(d =~= s);
        }
    }
    if first == to {
        return None;
    }
    let mut value: u64 = 0;
    let mut i: usize = first;
    assert(d.take(0) =~= Seq::empty());
    while i < to
        invariant
            from <= first <= i <= to <= v@.len(),
            s == v@.subrange(from as int, to as int),
            d == v@.subrange(first as int, to as int),
            forall|j: int| 0 <= j < i - first ==> is_digit(#[trigger] d[j]),
            value == dec_value(d.take(i - first)),
            value <= u32::MAX,
            u32_read(s) == if d.len() > 0 && all_digits(d) && dec_value(d) <= u32::MAX {
                Some(dec_value(d) as u32)
            } else {
                None::<u32>
            },
        decreases to - i,
    {
        let c: char = v[i];
        let u: u32 = c as u32;
        assert(d[i - first] == v@[i as int]);
        if c < '0' || c > '9' {
            assert(!is_digit(d[i - first]));
            return None;
        }
        proof {
            let next = d.take(i - first + 1);
            assert(next.drop_last() =~= d.take(i - first));
            assert(next.last() == v@[i as int]);
        }
        value = value * 10 + (u - 48) as u64;
        if value > u32::MAX as u64 {
            proof {
                if all_digits(d) {
                    lemma_dec_value_grows(d, i - first + 1);
                }
            }
            return None;
        }
        i = i + 1;
    }
    assert(d.take(i - first) =~= d);
    Some(value as u32)
}

} // verus!
