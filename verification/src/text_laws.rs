//! What holds of texts: white space, pieces, numbers, spans of time, answers
//! and lists of names.

use vstd::arithmetic::div_mod::{lemma_fundamental_div_mod, lemma_mod_bound};
use vstd::arithmetic::power2::{lemma2_to64, lemma_pow2_pos, pow2};
use vstd::prelude::*;

use crate::backup::{
    backup_target, base_name, highest_number, lemma_dec_ascii, number_of, number_suffix, temp_name,
};
use crate::engine::BackupName;
use crate::exclude::{
    is_shallow, open_groups, patterns_of, reading_after, Reading, DEEPEST,
};
use crate::path::{
    dot, dotdot, file_name_of, is_abs, is_name, lemma_parts_plain, lemma_with_file_name, parts, DOT,
    SLASH,
};
use crate::rate_laws::is_blank;
use crate::text::{
    all_digits, dec, dec2, dec_reads_back, dec_value, is_digit, is_space, pieces, trimmed, u32_read,
};
use crate::transfer::{after_block, becomes_hole, Sink};
use crate::utils::{
    double_seconds, duration_text, escape_of, escaped, hex_digit, json_array, nearest, rate_of,
    says_yes, scaled_whole, tenths, to_double, Elapsed,
};
use crate::xattr::{from_number, names_of, stretches, XattrAt};

verus! {

// ---------------------------------------------------------------------------
// White space
// ---------------------------------------------------------------------------

/// Among the characters of ASCII, white space is the blank, the tab, the line
/// feed and the others that move on; letters, digits and punctuation are none.
pub proof fn white_space_of_ascii(c: char)
    requires
        c <= '\u{7f}',
    ensures
        is_space(c) <==> c == ' ' || c == '\t' || c == '\n' || c == '\r' || c == '\u{b}' || c
            == '\u{c}',
{
}

/// `s` is `t` with nothing but white space in front and behind, and `t` neither
/// begins nor ends with white space.
pub open spec fn is_core_of(t: Seq<char>, s: Seq<char>, a: int) -> bool {
    &&& 0 <= a <= a + t.len() <= s.len()
    &&& t == s.subrange(a, a + t.len())
    &&& is_blank(s.take(a))
    &&& is_blank(s.skip(a + t.len()))
    &&& t.len() > 0 ==> !is_space(t[0]) && !is_space(t.last())
}

/// Trimming takes away white space at the two ends, all of it, and nothing
/// else.
pub proof fn trimming_takes_white_space_alone(s: Seq<char>)
    ensures
        exists|a: int| is_core_of(trimmed(s), s, a),
{
    let a = lemma_core(s);
    assert(is_core_of(trimmed(s), s, a));
}

proof fn lemma_core(s: Seq<char>) -> (a: int)
    ensures
        is_core_of(trimmed(s), s, a),
    decreases s.len(),
{
    let t = trimmed(s);
    if s.len() == 0 {
        assert(t =~= s.subrange(0, 0));
        0
    } else if is_space(s[0]) {
        let b = lemma_core(s.skip(1));
        let n = t.len() as int;
        assert(s.skip(1).subrange(b, b + n) =~= s.subrange(b + 1, b + 1 + n));
        assert forall|i: int| 0 <= i < s.take(b + 1).len() implies is_space(
            #[trigger] s.take(b + 1)[i],
        ) by {
            if i > 0 {
                assert(is_space(s.skip(1).take(b)[i - 1]));
            }
        }
        assert(s.skip(1).skip(b + n) =~= s.skip(b + 1 + n));
        b + 1
    } else if is_space(s.last()) {
        let b = lemma_core(s.drop_last());
        let n = t.len() as int;
        assert(s.drop_last().subrange(b, b + n) =~= s.subrange(b, b + n));
        assert(s.drop_last().take(b) =~= s.take(b));
        assert forall|i: int| 0 <= i < s.skip(b + n).len() implies is_space(
            #[trigger] s.skip(b + n)[i],
        ) by {
            if i < s.drop_last().skip(b + n).len() {
                assert(is_space(s.drop_last().skip(b + n)[i]));
            }
        }
        b
    } else {
        assert(s.subrange(0, s.len() as int) =~= s);
        0
    }
}

/// An answer is a yes when the first thing in it is a `y` or an `o`, large or
/// small, whatever follows; an answer without anything in it is none.
pub proof fn answers_go_by_their_first_letter(w: Seq<char>, c: char, rest: Seq<char>)
    requires
        is_blank(w),
        !is_space(c),
    ensures
        says_yes(w + seq![c] + rest) <==> c == 'y' || c == 'Y' || c == 'o' || c == 'O',
        !says_yes(w),
{
    let s = w + seq![c] + rest;
    let t = trimmed(s);
    let a = lemma_core(s);
    if a < w.len() {
        if t.len() > 0 {
            assert(t[0] == s[a]);
            assert(s[a] == w[a]);
        } else {
            assert(s.skip(a)[w.len() - a] == c);
        }
    }
    if a > w.len() {
        assert(s.take(a)[w.len() as int] == c);
    }
    assert(a == w.len());
    if t.len() == 0 {
        assert(s.skip(a)[0] == c);
    }
    assert(t[0] == s[a]);
    let b = lemma_core(w);
    if trimmed(w).len() > 0 {
        assert(trimmed(w)[0] == w[b]);
    }
}

// ---------------------------------------------------------------------------
// Pieces
// ---------------------------------------------------------------------------

/// `c` stands nowhere in `s`.
pub open spec fn is_free_of(s: Seq<char>, c: char) -> bool {
    forall|i: int| 0 <= i < s.len() ==> #[trigger] s[i] != c
}

/// A text without the separator is one piece; and the pieces of two texts with
/// the separator between them are those of the first and those of the second.
pub proof fn pieces_are_cut_at_separators(a: Seq<char>, b: Seq<char>, sep: char)
    ensures
        is_free_of(a, sep) ==> pieces(a, sep) == seq![a],
        pieces(a.push(sep) + b, sep) == pieces(a, sep) + pieces(b, sep),
        pieces(a, sep).len() > 0,
    decreases a.len() + b.len(),
{
    lemma_one_piece(a, sep);
    lemma_two_pieces(a, b, sep);
}

proof fn lemma_one_piece(a: Seq<char>, sep: char)
    ensures
        is_free_of(a, sep) ==> pieces(a, sep) == seq![a],
        pieces(a, sep).len() > 0,
    decreases a.len(),
{
    if a.len() > 0 {
        let s = a.drop_last();
        lemma_one_piece(s, sep);
        if is_free_of(a, sep) {
            assert(a[a.len() - 1] != sep);
            assert forall|i: int| 0 <= i < s.len() implies #[trigger] s[i] != sep by {
                assert(a[i] != sep);
            }
            assert(s.push(a.last()) =~= a);
            assert(pieces(a, sep) =~= seq![a]);
        }
    }
}

proof fn lemma_two_pieces(a: Seq<char>, b: Seq<char>, sep: char)
    ensures
        pieces(a.push(sep) + b, sep) == pieces(a, sep) + pieces(b, sep),
    decreases b.len(),
{
    let s = a.push(sep) + b;
    if b.len() == 0 {
        assert(b =~= Seq::empty());
        assert(s =~= a.push(sep));
        assert(s.drop_last() =~= a);
        assert(pieces(s, sep) =~= pieces(a, sep) + pieces(b, sep));
    } else {
        let short = b.drop_last();
        assert(s.drop_last() =~= a.push(sep) + short);
        assert(s.last() == b.last());
        lemma_two_pieces(a, short, sep);
        lemma_one_piece(short, sep);
        let (p, q) = (pieces(a, sep), pieces(short, sep));
        if b.last() == sep {
            assert((p + q).push(Seq::empty()) =~= p + q.push(Seq::empty()));
        } else {
            assert((p + q).drop_last() =~= p + q.drop_last());
            assert((p + q).last() == q.last());
            assert(pieces(s, sep) =~= p + pieces(b, sep));
        }
    }
}

proof fn lemma_map_filter(a: Seq<Seq<char>>, b: Seq<Seq<char>>)
    ensures
        ({
            let keep = |l: Seq<char>| l.len() > 0;
            (a + b).filter(keep) == a.filter(keep) + b.filter(keep)
        }),
    decreases b.len(),
{
    reveal(Seq::filter);
    let keep = |l: Seq<char>| l.len() > 0;
    if b.len() == 0 {
        assert(a + b =~= a);
        assert(a.filter(keep) + b.filter(keep) =~= a.filter(keep));
    } else {
        lemma_map_filter(a, b.drop_last());
        assert((a + b).drop_last() =~= a + b.drop_last());
        assert((a + b).last() == b.last());
        assert((a + b).filter(keep) =~= a.filter(keep) + b.filter(keep));
    }
}

/// A file of patterns holds the patterns of its lines, in their order: a blank
/// line holds none, any other one holds what is on it without white space
/// around.
pub proof fn each_line_holds_a_pattern(a: Seq<char>, b: Seq<char>)
    ensures
        patterns_of(a.push('\n') + b) == patterns_of(a) + patterns_of(b),
        is_free_of(a, '\n') && is_blank(a) ==> patterns_of(a) == Seq::<Seq<char>>::empty(),
        is_free_of(a, '\n') && !is_blank(a) ==> patterns_of(a) == seq![trimmed(a)],
{
    reveal(Seq::filter);
    let f = |l: Seq<char>| trimmed(l);
    pieces_are_cut_at_separators(a, b, '\n');
    let (p, q) = (pieces(a, '\n'), pieces(b, '\n'));
    assert((p + q).map_values(f) =~= p.map_values(f) + q.map_values(f));
    lemma_map_filter(p.map_values(f), q.map_values(f));
    if is_free_of(a, '\n') {
        let keep = |l: Seq<char>| l.len() > 0;
        let one = seq![a].map_values(f);
        assert(one =~= seq![trimmed(a)]);
        assert(one.drop_last() =~= Seq::empty());
        assert(one.drop_last().filter(keep) =~= Seq::empty());
        let c = lemma_core(a);
        if is_blank(a) {
            if trimmed(a).len() > 0 {
                assert(trimmed(a)[0] == a[c]);
            }
        } else if trimmed(a).len() == 0 {
            assert forall|i: int| 0 <= i < a.len() implies is_space(#[trigger] a[i]) by {
                if i < c {
                    assert(is_space(a.take(c)[i]));
                } else {
                    assert(is_space(a.skip(c)[i - c]));
                }
            }
        }
        assert(patterns_of(a) =~= if is_blank(a) {
            Seq::empty()
        } else {
            seq![trimmed(a)]
        });
    }
}

// ---------------------------------------------------------------------------
// Numbers
// ---------------------------------------------------------------------------

/// A number in decimal has digits alone, and no zero in front of others; what
/// has two digits stands for the number that it was made from.
pub proof fn decimals_are_plain(n: nat)
    ensures
        all_digits(dec(n)),
        dec_value(dec(n)) == n,
        dec(n).len() > 1 ==> dec(n)[0] != '0',
        n < 100 ==> dec2(n).len() == 2 && all_digits(dec2(n)) && dec_value(dec2(n)) == n,
    decreases n,
{
    dec_reads_back(n);
    if n >= 10 {
        decimals_are_plain(n / 10);
        let s = dec(n / 10);
        assert(dec(n)[0] == s[0]);
        if s.len() == 1 {
            assert(dec_value(s) == n / 10);
            assert(s.drop_last() =~= Seq::empty());
            assert(dec_value(s.drop_last()) == 0);
        }
    }
    if n < 100 {
        let s = dec2(n);
        assert(s.drop_last().drop_last() =~= Seq::empty());
        assert(dec_value(s.drop_last().drop_last()) == 0);
        assert(dec_value(s.drop_last()) == n / 10);
    }
}

/// A number is read from its digits, with a plus sign in front or not; anything
/// else is no number, and neither is one that is too large.
pub proof fn numbers_are_read_from_digits(n: nat, s: Seq<char>)
    ensures
        n <= u32::MAX ==> u32_read(dec(n)) == Some(n as u32),
        n <= u32::MAX ==> u32_read(seq!['+'] + dec(n)) == Some(n as u32),
        n > u32::MAX ==> u32_read(dec(n)) is None,
        s.len() == 0 ==> u32_read(s) is None,
        (exists|i: int| 0 < i < s.len() && !is_digit(#[trigger] s[i])) ==> u32_read(s) is None,
        s.len() > 0 && !is_digit(s[0]) && s[0] != '+' ==> u32_read(s) is None,
{
    dec_reads_back(n);
    assert(is_digit(dec(n)[0]));
    assert((seq!['+'] + dec(n)).skip(1) =~= dec(n));
    if exists|i: int| 0 < i < s.len() && !is_digit(#[trigger] s[i]) {
        let i = choose|i: int| 0 < i < s.len() && !is_digit(#[trigger] s[i]);
        if s[0] == '+' {
            assert(!is_digit(s.skip(1)[i - 1]));
        }
    }
}

/// The highest number is the number of one of the names, and no name has a
/// higher one; without numbered names there is none.
pub proof fn the_highest_number_is_in_use(base: Seq<char>, names: Seq<Seq<char>>)
    ensures
        match highest_number(base, names) {
            Some(h) => {
                &&& exists|i: int|
                    0 <= i < names.len() && number_of(base, #[trigger] names[i]) == Some(h)
                &&& forall|i: int|
                    0 <= i < names.len() ==> (number_of(base, #[trigger] names[i]) matches Some(n)
                        ==> n <= h)
            },
            None => forall|i: int|
                0 <= i < names.len() ==> number_of(base, #[trigger] names[i]) is None,
        },
    decreases names.len(),
{
    if names.len() > 0 {
        let short = names.drop_last();
        the_highest_number_is_in_use(base, short);
        assert forall|i: int| 0 <= i < short.len() implies short[i] == #[trigger] names[i] by {}
        if let Some(h) = highest_number(base, names) {
            if number_of(base, names.last()) == Some(h) {
                assert(number_of(base, names[names.len() - 1]) == Some(h));
            } else {
                let i = choose|i: int|
                    0 <= i < short.len() && number_of(base, #[trigger] short[i]) == Some(h);
                assert(number_of(base, names[i]) == Some(h));
            }
        }
    }
}

/// A name has a number when it is the base with a dot, a tilde, a number and a
/// tilde behind it, and only then.
pub proof fn numbered_names_have_one_shape(base: Seq<char>, digits: Seq<char>, name: Seq<char>)
    ensures
        u32_read(digits) is Some ==> number_of(base, base + seq!['.', '~'] + digits + seq!['~'])
            == u32_read(digits),
        number_of(base, name) matches Some(n) ==> exists|d: Seq<char>|
            #[trigger] u32_read(d) == Some(n) && name == base + seq!['.', '~'] + d + seq!['~'],
{
    let b = base.len() as int;
    let c = base + seq!['.', '~'] + digits + seq!['~'];
    assert(c.take(b) =~= base);
    assert(c.subrange(b + 2, c.len() - 1) =~= digits);
    if let Some(n) = number_of(base, name) {
        let d = name.subrange(b + 2, name.len() - 1);
        assert(name =~= base + seq!['.', '~'] + d + seq!['~']) by {
            assert forall|i: int| 0 <= i < b implies name[i] == base[i] by {
                assert(name.take(b)[i] == name[i]);
            }
        }
    }
}

proof fn lemma_base_plain(dst: Seq<u8>)
    requires
        file_name_of(dst) is Some,
    ensures
        base_name(dst) == parts(dst).last(),
        parts(dst).len() > 0,
        base_name(dst).len() > 0,
        forall|j: int| 0 <= j < base_name(dst).len() ==> base_name(dst)[j] != SLASH,
{
    lemma_parts_plain(dst);
    let x = parts(dst)[parts(dst).len() - 1];
    assert(x.len() > 0 && forall|j: int| 0 <= j < x.len() ==> x[j] != SLASH);
}

/// A backup lies beside the file that it saves, under the name of the file with
/// the suffix, or with its number, behind it.
pub proof fn backups_lie_beside(dst: Seq<u8>, suffix: Seq<char>, n: u32)
    requires
        file_name_of(dst) is Some,
    ensures
        ({
            let s = vstd::utf8::encode_utf8(suffix);
            let simple = backup_target(dst, BackupName::Simple, suffix);
            s.len() > 0 && (forall|j: int| 0 <= j < s.len() ==> s[j] != SLASH) && is_name(
                base_name(dst) + s,
            ) ==> {
                &&& parts(simple) == parts(dst).drop_last().push(parts(dst).last() + s)
                &&& is_abs(simple) == is_abs(dst)
            }
        }),
        ({
            let number = vstd::utf8::encode_utf8(seq!['.', '~'] + dec(n as nat) + seq!['~']);
            let numbered = backup_target(dst, BackupName::Numbered(n), suffix);
            &&& parts(numbered) == parts(dst).drop_last().push(parts(dst).last() + number)
            &&& is_abs(numbered) == is_abs(dst)
        }),
{
    let base = base_name(dst);
    lemma_base_plain(dst);
    let s = vstd::utf8::encode_utf8(suffix);
    if s.len() > 0 && (forall|j: int| 0 <= j < s.len() ==> s[j] != SLASH) && is_name(base + s) {
        lemma_with_file_name(dst, base + s);
    }
    let t = number_suffix(n as nat);
    let e = vstd::utf8::encode_utf8(t);
    lemma_dec_ascii(n as nat);
    let d = dec(n as nat);
    dec_reads_back(n as nat);
    assert(vstd::utf8::is_ascii_chars(t)) by {
        assert forall|i: int| 0 <= i < t.len() implies '\0' <= #[trigger] t[i] <= '\u{7f}' by {
            if 2 <= i < 2 + d.len() {
                assert(t[i] == d[i - 2]);
            }
        }
    }
    vstd::utf8::is_ascii_chars_encode_utf8(t);
    let name = base + e;
    assert forall|j: int| 0 <= j < name.len() implies name[j] != SLASH by {
        if j >= base.len() {
            let i = j - base.len();
            assert(name[j] == t[i] as u8);
            if 2 <= i < 2 + d.len() {
                assert(t[i] == d[i - 2]);
            }
        }
    }
    assert(name.len() > 2);
    assert(name != dot() && name != dotdot());
    lemma_with_file_name(dst, name);
}

/// Two processes never write under the same temporary name, and neither do two
/// files of one process; the name is a hidden one.
pub proof fn temporary_names_differ(base1: Seq<u8>, pid1: u32, base2: Seq<u8>, pid2: u32)
    ensures
        temp_name(base1, pid1).len() > 0 && temp_name(base1, pid1)[0] == DOT,
        base1 == base2 && pid1 != pid2 ==> temp_name(base1, pid1) != temp_name(base2, pid2),
        base1 != base2 && pid1 == pid2 ==> temp_name(base1, pid1) != temp_name(base2, pid2),
{
    reveal_strlit(".wcp-tmp-");
    reveal_strlit("-");
    let t1 = ".wcp-tmp-"@ + dec(pid1 as nat) + "-"@;
    let t2 = ".wcp-tmp-"@ + dec(pid2 as nat) + "-"@;
    let e1 = vstd::utf8::encode_utf8(t1);
    let e2 = vstd::utf8::encode_utf8(t2);
    vstd::utf8::encode_utf8_decode_utf8(t1);
    vstd::utf8::encode_utf8_decode_utf8(t2);
    lemma_dec_ascii(pid1 as nat);
    assert(vstd::utf8::is_ascii_chars(t1)) by {
        assert forall|i: int| 0 <= i < t1.len() implies '\0' <= #[trigger] t1[i] <= '\u{7f}' by {
            if 9 <= i < 9 + dec(pid1 as nat).len() {
                assert(t1[i] == dec(pid1 as nat)[i - 9]);
            }
        }
    }
    vstd::utf8::is_ascii_chars_encode_utf8(t1);
    assert(temp_name(base1, pid1)[0] == e1[0]);
    if temp_name(base1, pid1) == temp_name(base2, pid2) {
        let name = temp_name(base1, pid1);
        assert(name == e1 + base1 && name == e2 + base2);
        assert(name.len() == e1.len() + base1.len());
        assert(name.len() == (e2 + base2).len());
        if base1 == base2 {
            assert(e1.len() == e2.len());
            assert(e1 =~= name.take(e1.len() as int));
            assert(e2 =~= name.take(e2.len() as int));
            assert(t1 == t2);
            assert(dec(pid1 as nat) =~= t1.subrange(9, t1.len() - 1));
            assert(dec(pid2 as nat) =~= t2.subrange(9, t2.len() - 1));
            dec_reads_back(pid1 as nat);
            dec_reads_back(pid2 as nat);
        } else if pid1 == pid2 {
            assert(base1 =~= name.skip(e1.len() as int));
            assert(base2 =~= name.skip(e2.len() as int));
        }
    }
}

// ---------------------------------------------------------------------------
// Rounding and spans of time
// ---------------------------------------------------------------------------

/// What is rounded is off by half a unit at most, and of two numbers that are as
/// near the even one is taken.
pub proof fn rounding_is_to_the_nearest(a: nat, b: nat)
    requires
        b > 0,
    ensures
        2 * a <= 2 * (nearest(a, b) * b) + b,
        2 * (nearest(a, b) * b) <= 2 * a + b,
        2 * a == 2 * (nearest(a, b) * b) + b || 2 * (nearest(a, b) * b) == 2 * a + b ==> nearest(
            a,
            b,
        ) % 2 == 0,
{
    let q = a / b;
    let r = a % b;
    lemma_fundamental_div_mod(a as int, b as int);
    assert(b * q == q * b) by (nonlinear_arith);
    lemma_mod_bound(a as int, b as int);
    assert((q + 1) * b == q * b + b) by (nonlinear_arith);
}

/// A span of time reads as hours, minutes and seconds that make it up, without
/// what is less than a second; under an hour without hours.
pub proof fn spans_of_time_add_up(d: Elapsed, h: nat, m: nat, s: nat)
    requires
        m < 60,
        s < 60,
        d.secs == h * 3600 + m * 60 + s,
    ensures
        h > 0 ==> duration_text(d) == dec(h) + ":"@ + dec2(m) + ":"@ + dec2(s),
        h == 0 && m > 0 ==> duration_text(d) == dec(m) + "m "@ + dec2(s) + "s"@,
        h == 0 && m == 0 && d.nanos == 0 ==> duration_text(d) == dec(s) + "."@ + dec(0) + "s"@,
{
    let t = d.secs as nat;
    assert(t / 3600 == h && t % 3600 == m * 60 + s);
    assert(t % 3600 / 60 == m && t % 60 == s);
    if h == 0 && m == 0 && d.nanos == 0 {
        lemma_whole_seconds(s);
    }
}

proof fn lemma_whole_seconds(s: nat)
    requires
        s < 60,
    ensures
        tenths(s, 0) == s * 10,
{
    lemma2_to64();
    assert(nearest(0, 1_000_000_000) == 0);
    assert(s * 1 == s);
    assert(s / 1 == s && s % 1 == 0);
    assert(nearest(s, 1) == s);
    assert(to_double(s) == s);
    assert(double_seconds(s, 0) == (s, 0nat));
    assert((s * 10) / 1 == s * 10 && (s * 10) % 1 == 0);
}

// ---------------------------------------------------------------------------
// Speeds
// ---------------------------------------------------------------------------

/// A letter behind the number that is none of `k`, `m`, `g` and `b`, large or
/// small, is refused, and so is what is no number, or none above zero.
pub proof fn senseless_speeds_are_refused(d: Seq<char>, c: char, number: Option<u64>)
    requires
        d.len() > 0,
        !is_space(d[0]),
        'a' <= c <= 'z' || 'A' <= c <= 'Z',
    ensures
        rate_of(d.push(c), number) is Ok ==> c == 'k' || c == 'K' || c == 'm' || c == 'M' || c == 'g'
            || c == 'G' || c == 'b' || c == 'B',
        number is None ==> rate_of(d.push(c), number) is Err,
        number == Some(0u64) ==> rate_of(d.push(c), number) is Err,
        number matches Some(bits) && bits >= 0x8000_0000_0000_0000 ==> rate_of(d.push(c), number)
            is Err,
{
    let s = d.push(c);
    assert(!is_space(c));
    assert(s.last() == c && s[0] == d[0]);
    assert(trimmed(s) == s);
}

/// Every number above zero, an infinite one too, gives a speed with a suffix
/// that is known; what is no number at all gives none.
pub proof fn positive_numbers_are_speeds(d: Seq<char>, c: char, bits: u64)
    requires
        d.len() > 0,
        !is_space(d[0]),
        c == 'k' || c == 'K' || c == 'm' || c == 'M' || c == 'g' || c == 'G' || c == 'b' || c == 'B',
    ensures
        0 < bits <= 0x7ff0_0000_0000_0000 ==> rate_of(d.push(c), Some(bits)) is Ok,
        0x7ff0_0000_0000_0000 < bits ==> rate_of(d.push(c), Some(bits)) is Err,
{
    let s = d.push(c);
    assert(!is_space(c));
    assert(s.last() == c && s[0] == d[0]);
    assert(trimmed(s) == s);
}

/// A speed is the whole part of the number that was written, times its unit:
/// what is less than a byte is cut off, and what is too large gives the largest
/// speed.
pub proof fn speeds_are_cut_to_whole_bytes(bits: u64, shift: u32)
    requires
        0x10_0000_0000_0000 <= bits < 0x7ff0_0000_0000_0000,
        shift <= 30,
    ensures
        ({
            let e = bits / 0x10_0000_0000_0000;
            let m = 0x10_0000_0000_0000 + bits % 0x10_0000_0000_0000;
            let p = e - 1075 + shift;
            let n = scaled_whole(bits, shift);
            &&& p < 0 ==> n * pow2((-p) as nat) <= m < (n + 1) * pow2((-p) as nat)
            &&& p >= 0 && m * pow2(p as nat) <= u64::MAX ==> n == m * pow2(p as nat)
            &&& p >= 0 && m * pow2(p as nat) > u64::MAX ==> n == u64::MAX
        }),
{
    let e = bits / 0x10_0000_0000_0000;
    let f = bits % 0x10_0000_0000_0000;
    assert(1 <= e < 0x7ff);
    assert(e % 0x800 == e);
    let m = (0x10_0000_0000_0000 + f) as nat;
    let p = e - 1075 + shift;
    if p < 0 {
        let k = pow2((-p) as nat);
        lemma_pow2_pos((-p) as nat);
        lemma_fundamental_div_mod(m as int, k as int);
        lemma_mod_bound(m as int, k as int);
        let q = m / k;
        assert(q <= m) by (nonlinear_arith)
            requires
                q == m / k,
                k > 0,
        ;
        assert(k * q == q * k) by (nonlinear_arith);
        assert((q + 1) * k == q * k + k) by (nonlinear_arith);
    }
}

// ---------------------------------------------------------------------------
// Blocks and buffers
// ---------------------------------------------------------------------------

/// With holes, a block of zeros is left out and any other one is written;
/// without them every block is written.
pub proof fn zeros_alone_become_holes(f: Sink, holes: bool, block: Seq<u8>)
    requires
        block.len() > 0,
        f.contents.len() <= f.pos,
    ensures
        ({
            let next = after_block(f, holes, block);
            let zeros = forall|i: int| 0 <= i < block.len() ==> #[trigger] block[i] == 0;
            &&& next.pos == f.pos + block.len()
            &&& holes && zeros ==> next.contents == f.contents
            &&& !(holes && zeros) ==> next.contents.len() == next.pos && next.contents.skip(f.pos)
                == block
            &&& becomes_hole(holes, block) <==> holes && zeros
        }),
{
    let next = after_block(f, holes, block);
    if !becomes_hole(holes, block) {
        assert(next.contents.skip(f.pos) =~= block);
    }
}

// ---------------------------------------------------------------------------
// Lists of names
// ---------------------------------------------------------------------------

/// No byte is zero.
pub open spec fn is_unbroken(s: Seq<u8>) -> bool {
    forall|i: int| 0 <= i < s.len() ==> #[trigger] s[i] != 0
}

proof fn lemma_one_stretch(a: Seq<u8>)
    ensures
        is_unbroken(a) ==> stretches(a) == seq![a],
        stretches(a).len() > 0,
    decreases a.len(),
{
    if a.len() > 0 {
        let s = a.drop_last();
        lemma_one_stretch(s);
        if is_unbroken(a) {
            assert(a[a.len() - 1] != 0);
            assert forall|i: int| 0 <= i < s.len() implies #[trigger] s[i] != 0 by {
                assert(a[i] != 0);
            }
            assert(s.push(a.last()) =~= a);
            assert(stretches(a) =~= seq![a]);
        }
    }
}

proof fn lemma_two_stretches(a: Seq<u8>, b: Seq<u8>)
    ensures
        stretches(a.push(0) + b) == stretches(a) + stretches(b),
    decreases b.len(),
{
    let s = a.push(0) + b;
    if b.len() == 0 {
        assert(b =~= Seq::empty());
        assert(s =~= a.push(0));
        assert(s.drop_last() =~= a);
        assert(stretches(s) =~= stretches(a) + stretches(b));
    } else {
        let short = b.drop_last();
        assert(s.drop_last() =~= a.push(0) + short);
        assert(s.last() == b.last());
        lemma_two_stretches(a, short);
        lemma_one_stretch(short);
        let (p, q) = (stretches(a), stretches(short));
        if b.last() == 0 {
            assert((p + q).push(Seq::empty()) =~= p + q.push(Seq::empty()));
        } else {
            assert((p + q).drop_last() =~= p + q.drop_last());
            assert((p + q).last() == q.last());
            assert(stretches(s) =~= p + stretches(b));
        }
    }
}

proof fn lemma_names_filter(a: Seq<Seq<u8>>, b: Seq<Seq<u8>>)
    ensures
        ({
            let keep = |x: Seq<u8>| x.len() > 0;
            (a + b).filter(keep) == a.filter(keep) + b.filter(keep)
        }),
    decreases b.len(),
{
    reveal(Seq::filter);
    let keep = |x: Seq<u8>| x.len() > 0;
    if b.len() == 0 {
        assert(a + b =~= a);
        assert(a.filter(keep) + b.filter(keep) =~= a.filter(keep));
    } else {
        lemma_names_filter(a, b.drop_last());
        assert((a + b).drop_last() =~= a + b.drop_last());
        assert((a + b).last() == b.last());
        assert((a + b).filter(keep) =~= a.filter(keep) + b.filter(keep));
    }
}

/// A list of names where a zero byte ends each holds these names, in their
/// order.
pub proof fn names_end_with_zero(name: Seq<u8>, rest: Seq<u8>)
    requires
        is_unbroken(name),
    ensures
        name.len() > 0 ==> names_of(name.push(0) + rest) == seq![name] + names_of(rest),
        name.len() == 0 ==> names_of(name.push(0) + rest) == names_of(rest),
        names_of(Seq::<u8>::empty()) == Seq::<Seq<u8>>::empty(),
{
    reveal(Seq::filter);
    let keep = |x: Seq<u8>| x.len() > 0;
    lemma_one_stretch(name);
    lemma_two_stretches(name, rest);
    lemma_names_filter(seq![name], stretches(rest));
    assert(seq![name].drop_last() =~= Seq::empty());
    assert(seq![name].drop_last().filter(keep) =~= Seq::empty());
    if name.len() > 0 {
        assert(seq![name].filter(keep) =~= seq![name]);
    } else {
        assert(seq![name].filter(keep) =~= Seq::empty());
        assert(seq![name].filter(keep) + names_of(rest) =~= names_of(rest));
    }
    let none = Seq::<u8>::empty();
    assert(stretches(none) =~= seq![none]);
    assert(seq![none].drop_last() =~= Seq::empty());
    assert(seq![none].drop_last().filter(keep) =~= Seq::empty());
    assert(seq![none].filter(keep) =~= Seq::empty());
}

/// Every attribute has its turn, one after the other.
pub proof fn no_attribute_is_passed_over(number: usize, count: int)
    ensures
        number < count ==> from_number(number, count) == XattrAt::ValueLength(number),
        number >= count ==> from_number(number, count) == XattrAt::Done,
{
}

/// An array of texts holds each of them between quotes, with commas between.
pub proof fn arrays_hold_texts_between_quotes(list: Seq<Seq<char>>, x: Seq<char>)
    ensures
        json_array(Seq::<Seq<char>>::empty()) == seq!['[', ']'],
        json_array(list.push(x)) == json_array(list).drop_last() + (if list.len() > 0 {
            seq![',', '"']
        } else {
            seq!['"']
        }) + escaped(x) + seq!['"', ']'],
{
    assert(json_array(Seq::<Seq<char>>::empty()) =~= seq!['[', ']']);
    assert(list.push(x).drop_last() =~= list);
    assert(json_array(list.push(x)) =~= json_array(list).drop_last() + (if list.len() > 0 {
        seq![',', '"']
    } else {
        seq!['"']
    }) + escaped(x) + seq!['"', ']']);
}

/// No text puts a control character into a JSON string.
pub proof fn json_strings_hold_no_control_characters(s: Seq<char>, i: int)
    requires
        0 <= i < escaped(s).len(),
    ensures
        escaped(s)[i] > '\u{1f}',
    decreases s.len(),
{
    let before = escaped(s.drop_last());
    if i < before.len() {
        json_strings_hold_no_control_characters(s.drop_last(), i);
    } else {
        lemma_no_control(s.last(), i - before.len());
    }
}

proof fn lemma_no_control(c: char, j: int)
    requires
        0 <= j < escape_of(c).len(),
    ensures
        escape_of(c)[j] > '\u{1f}',
{
    let (a, b) = (c as int / 16, c as int % 16);
    if c <= '\u{1f}' {
        assert(0 <= a < 2 && 0 <= b < 16);
        assert(hex_digit(a) > '\u{1f}');
        assert(hex_digit(b) > '\u{1f}');
    }
}

// ---------------------------------------------------------------------------
// Groups in patterns
// ---------------------------------------------------------------------------

/// How many braces open in `p`, whatever they stand for.
pub open spec fn braces_in(p: Seq<char>) -> int
    decreases p.len(),
{
    if p.len() == 0 {
        0
    } else {
        braces_in(p.drop_last()) + if p.last() == '{' {
            1int
        } else {
            0
        }
    }
}

proof fn lemma_few_open(p: Seq<char>)
    ensures
        0 <= open_groups(p) <= braces_in(p),
    decreases p.len(),
{
    if p.len() > 0 {
        lemma_few_open(p.drop_last());
    }
}

proof fn lemma_braces_grow(p: Seq<char>, i: int)
    requires
        0 <= i <= p.len(),
    ensures
        braces_in(p.take(i)) <= braces_in(p),
    decreases p.len(),
{
    if i == p.len() {
        assert(p.take(i) =~= p);
    } else {
        assert(p.drop_last().take(i) =~= p.take(i));
        lemma_braces_grow(p.drop_last(), i);
    }
}

/// A pattern with no more than a thousand braces is never refused for being
/// nested too deep; one that begins with more in a row is.
pub proof fn only_deep_patterns_are_refused(p: Seq<char>)
    ensures
        braces_in(p) <= 1000 ==> is_shallow(p),
        p.len() > 1000 && (forall|i: int| 0 <= i <= 1000 ==> #[trigger] p[i] == '{') ==> !is_shallow(
            p,
        ),
{
    if braces_in(p) <= 1000 {
        assert forall|i: int| 0 <= i <= p.len() implies #[trigger] open_groups(p.take(i))
            <= DEEPEST by {
            lemma_few_open(p.take(i));
            lemma_braces_grow(p, i);
        }
    }
    if p.len() > 1000 && (forall|i: int| 0 <= i <= 1000 ==> #[trigger] p[i] == '{') {
        lemma_row_of_braces(p, 1001);
        assert(open_groups(p.take(1001)) > DEEPEST);
    }
}

proof fn lemma_row_of_braces(p: Seq<char>, n: int)
    requires
        0 <= n <= p.len(),
        forall|i: int| 0 <= i < n ==> #[trigger] p[i] == '{',
    ensures
        open_groups(p.take(n)) == n,
        reading_after(p.take(n)) == Reading::Plain,
    decreases n,
{
    if n > 0 {
        lemma_row_of_braces(p, n - 1);
        assert(p.take(n).drop_last() =~= p.take(n - 1));
        assert(p.take(n).last() == p[n - 1]);
    }
}

/// A brace behind a backslash, and one in a class, opens no group.
pub proof fn hidden_braces_open_nothing(p: Seq<char>)
    requires
        reading_after(p) == Reading::Plain,
    ensures
        open_groups(p.push('\\').push('{')) == open_groups(p),
        open_groups(p.push('[').push('{').push(']')) == open_groups(p),
        open_groups(p.push('{')) == open_groups(p) + 1,
        open_groups(p.push('{').push('}')) == open_groups(p),
{
    reveal_with_fuel(open_groups, 4);
    reveal_with_fuel(reading_after, 4);
    lemma_few_open(p);
    assert(p.push('\\').push('{').drop_last() =~= p.push('\\'));
    assert(p.push('\\').drop_last() =~= p);
    assert(p.push('[').push('{').push(']').drop_last() =~= p.push('[').push('{'));
    assert(p.push('[').push('{').drop_last() =~= p.push('['));
    assert(p.push('[').drop_last() =~= p);
    assert(p.push('{').push('}').drop_last() =~= p.push('{'));
    assert(p.push('{').drop_last() =~= p);
}

} // verus!
