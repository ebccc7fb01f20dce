//! The names beside a destination: backups and temporary files.

use vstd::prelude::*;
use vstd::string::*;
use vstd::utf8::{
    decode_utf8, decode_utf8_encode_utf8, encode_utf8, encode_utf8_decode_utf8,
    encode_utf8_valid_utf8, is_ascii_chars, is_ascii_chars_encode_utf8, valid_utf8,
    valid_utf8_concat,
};

use crate::bytes::append_bytes;
use crate::engine::BackupName;
use crate::path::{
    dot, dotdot, file_name_of, is_abs, is_name, lemma_spans_ok, lemma_with_file_name, parts, spans,
    with_file_name_of, RawPath, SLASH,
};
use crate::text::{
    append_dec, chars_of, dec, dec_reads_back, is_digit, name_text, read_u32, shown, u32_read,
};

verus! {

// ---------------------------------------------------------------------------
// Numbered names
// ---------------------------------------------------------------------------

/// What makes a name the backup number `n`.
pub open spec fn number_suffix(n: nat) -> Seq<char> {
    seq!['.', '~'] + dec(n) + seq!['~']
}

/// The number of the backup `candidate` of `base`.
pub open spec fn number_of(base: Seq<char>, candidate: Seq<char>) -> Option<u32> {
    let b = base.len() as int;
    let n = candidate.len() as int;
    if n >= b + 3 && candidate.take(b) == base && candidate[b] == '.' && candidate[b + 1] == '~'
        && candidate[n - 1] == '~' {
        u32_read(candidate.subrange(b + 2, n - 1))
    } else {
        None
    }
}

/// The number of the backup `candidate` of `base`: `base.~12~` has number 12.
pub fn parse_numbered(base: &str, candidate: &str) -> (r: Option<u32>)
    ensures
        r == number_of(base@, candidate@),
{
    let b: Vec<char> = chars_of(base);
    let c: Vec<char> = chars_of(candidate);
    if c.len() < b.len() || c.len() - b.len() < 3 {
        return None;
    }
    let mut i: usize = 0;
    while i < b.len()
        invariant
            i <= b@.len() <= c@.len(),
            b@ == base@,
            c@ == candidate@,
            forall|j: int| 0 <= j < i ==> b@[j] == c@[j],
        decreases b@.len() - i,
    {
        if b[i] != c[i] {
            assert(candidate@.take(b@.len() as int)[i as int] != base@[i as int]);
            return None;
        }
        i = i + 1;
    }
    assert(candidate@.take(b@.len() as int) =~= base@);
    if c[b.len()] != '.' || c[b.len() + 1] != '~' || c[c.len() - 1] != '~' {
        return None;
    }
    read_u32(&c, b.len() + 2, c.len() - 1)
}

/// The backup number `n` is read as number `n`.
pub proof fn numbers_read_back(base: Seq<char>, n: u32)
    ensures
        number_of(base, base + number_suffix(n as nat)) == Some(n),
{
    let c = base + number_suffix(n as nat);
    let b = base.len() as int;
    dec_reads_back(n as nat);
    let d = dec(n as nat);
    assert(c.take(b) =~= base);
    assert(c.subrange(b + 2, c.len() - 1) =~= d);
    assert(is_digit(d[0]));
}

/// The highest number among the backups `names` of `base`.
pub open spec fn highest_number(base: Seq<char>, names: Seq<Seq<char>>) -> Option<u32>
    decreases names.len(),
{
    if names.len() == 0 {
        None
    } else {
        let before = highest_number(base, names.drop_last());
        match number_of(base, names.last()) {
            None => before,
            Some(n) => match before {
                None => Some(n),
                Some(m) => Some(
                    if m > n {
                        m
                    } else {
                        n
                    },
                ),
            },
        }
    }
}

/// The texts of file names.
pub open spec fn name_texts(names: Seq<Vec<u8>>) -> Seq<Seq<char>> {
    names.map_values(|n: Vec<u8>| shown(n@))
}

/// The highest number among the backups of `dst` that its directory holds,
/// with the names `names`. A path without a file name has no backups.
pub fn max_numbered_backup(dst: &RawPath, names: &Vec<Vec<u8>>) -> (r: Option<u32>)
    ensures
        r == match file_name_of(dst@) {
            Some(base) => highest_number(shown(base), name_texts(names@)),
            None => None,
        },
{
    let base: String = match dst.file_name() {
        Some(n) => name_text(n.as_slice()),
        None => {
            return None;
        },
    };
    let ghost all = name_texts(names@);
    let mut best: Option<u32> = None;
    let mut i: usize = 0;
    assert(all.take(0) =~= Seq::empty());
    while i < names.len()
        invariant
            i <= names@.len(),
            all == name_texts(names@),
            best == highest_number(base@, all.take(i as int)),
        decreases names@.len() - i,
    {
        proof {
            assert(all.take(i + 1).drop_last() =~= all.take(i as int));
            assert(all.take(i + 1).last() == shown(names@[i as int]@));
        }
        let candidate: String = name_text(names[i].as_slice());
        match parse_numbered(base.as_str(), candidate.as_str()) {
            Some(n) => {
                best = match best {
                    Some(m) => Some(
                        if m > n {
                            m
                        } else {
                            n
                        },
                    ),
                    None => Some(n),
                };
            },
            None => {},
        }
        i = i + 1;
    }
    assert(all.take(i as int) =~= all);
    best
}

/// Whether `dst` has a numbered backup among `names`.
pub fn has_numbered_backup(dst: &RawPath, names: &Vec<Vec<u8>>) -> (r: bool)
    ensures
        r == (file_name_of(dst@) is Some && highest_number(
            shown(file_name_of(dst@).unwrap()),
            name_texts(names@),
        ) is Some),
{
    max_numbered_backup(dst, names).is_some()
}

proof fn lemma_highest(base: Seq<char>, names: Seq<Seq<char>>, i: int)
    requires
        0 <= i < names.len(),
        number_of(base, names[i]) is Some,
    ensures
        highest_number(base, names) is Some,
        number_of(base, names[i]).unwrap() <= highest_number(base, names).unwrap(),
    decreases names.len(),
{
    if i < names.len() - 1 {
        lemma_highest(base, names.drop_last(), i);
    }
}

/// The number after the highest one is not in use.
pub proof fn next_number_is_free(base: Seq<char>, names: Seq<Seq<char>>, n: u32)
    requires
        match highest_number(base, names) {
            Some(m) => n > m,
            None => true,
        },
    ensures
        !names.contains(base + number_suffix(n as nat)),
{
    let name = base + number_suffix(n as nat);
    numbers_read_back(base, n);
    if names.contains(name) {
        let i = choose|i: int| 0 <= i < names.len() && names[i] == name;
        lemma_highest(base, names, i);
    }
}

// ---------------------------------------------------------------------------
// Names in the same directory
// ---------------------------------------------------------------------------

/// The file name of `p`, or nothing.
pub open spec fn base_name(p: Seq<u8>) -> Seq<u8> {
    match file_name_of(p) {
        Some(n) => n,
        None => Seq::empty(),
    }
}

fn get_base_name(p: &RawPath) -> (r: Vec<u8>)
    ensures
        r@ == base_name(p@),
{
    match p.file_name() {
        Some(n) => n,
        None => Vec::new(),
    }
}

/// `p` with `suffix` behind its file name.
pub open spec fn suffixed(p: Seq<u8>, suffix: Seq<char>) -> Seq<u8> {
    with_file_name_of(p, base_name(p) + encode_utf8(suffix))
}

fn with_suffix(p: &RawPath, suffix: &str) -> (r: RawPath)
    ensures
        r@ == suffixed(p@, suffix@),
{
    let mut name: Vec<u8> = get_base_name(p);
    append_bytes(&mut name, suffix.as_bytes());
    let n: RawPath = RawPath { bytes: name };
    p.with_file_name(&n)
}

/// The simple backup of `dst`.
pub fn simple_backup_name(dst: &RawPath, suffix: &str) -> (r: RawPath)
    ensures
        r@ == suffixed(dst@, suffix@),
{
    with_suffix(dst, suffix)
}

/// The backup number `n` of `dst`.
pub fn numbered_backup_name(dst: &RawPath, n: u32) -> (r: RawPath)
    ensures
        r@ == suffixed(dst@, number_suffix(n as nat)),
{
    let mut s: String = String::new();
    s.push('.');
    s.push('~');
    append_dec(&mut s, n as u64);
    s.push('~');
    assert(s@ =~= number_suffix(n as nat));
    with_suffix(dst, s.as_str())
}

/// The path under which `dst` is saved.
pub open spec fn backup_target(dst: Seq<u8>, name: BackupName, suffix: Seq<char>) -> Seq<u8> {
    match name {
        BackupName::Simple => suffixed(dst, suffix),
        BackupName::Numbered(n) => suffixed(dst, number_suffix(n as nat)),
    }
}

/// The path under which `dst` is saved.
pub fn backup_path(dst: &RawPath, name: BackupName, suffix: &str) -> (r: RawPath)
    ensures
        r@ == backup_target(dst@, name, suffix@),
{
    match name {
        BackupName::Simple => simple_backup_name(dst, suffix),
        BackupName::Numbered(n) => numbered_backup_name(dst, n),
    }
}

/// The name of a temporary file of the process `pid` for the name `base`.
pub open spec fn temp_name(base: Seq<u8>, pid: u32) -> Seq<u8> {
    encode_utf8(".wcp-tmp-"@ + dec(pid as nat) + "-"@) + base
}

/// Where the process `pid` writes the temporary file for `dst`.
pub open spec fn temp_target(dst: Seq<u8>, pid: u32) -> Seq<u8> {
    with_file_name_of(dst, temp_name(base_name(dst), pid))
}

/// Where the process `pid` writes the temporary file for `dst`: under a hidden
/// name in the same directory, so that a rename is all it takes to finish.
pub fn temp_path_for(dst: &RawPath, pid: u32) -> (r: RawPath)
    ensures
        r@ == temp_target(dst@, pid),
{
    let mut s: String = ".wcp-tmp-".to_owned();
    append_dec(&mut s, pid as u64);
    s.append("-");
    let mut name: Vec<u8> = Vec::new();
    append_bytes(&mut name, s.as_str().as_bytes());
    let base: Vec<u8> = get_base_name(dst);
    append_bytes(&mut name, base.as_slice());
    let n: RawPath = RawPath { bytes: name };
    assert(n@ =~= temp_name(base_name(dst@), pid));
    dst.with_file_name(&n)
}

// ---------------------------------------------------------------------------
// Laws
// ---------------------------------------------------------------------------

proof fn lemma_encode_concat(a: Seq<char>, b: Seq<char>)
    ensures
        encode_utf8(a + b) == encode_utf8(a) + encode_utf8(b),
    decreases a.len(),
{
    if a.len() == 0 {
        assert(a + b =~= b);
        assert(encode_utf8(a) + encode_utf8(b) =~= encode_utf8(b));
    } else {
        lemma_encode_concat(a.drop_first(), b);
        assert((a + b).drop_first() =~= a.drop_first() + b);
        assert(encode_utf8(a + b) =~= encode_utf8(a) + encode_utf8(b));
    }
}

/// A name that is a text, with a text behind it, reads as the two together.
proof fn lemma_shown_concat(base: Seq<u8>, suffix: Seq<char>)
    requires
        valid_utf8(base),
    ensures
        shown(base + encode_utf8(suffix)) == shown(base) + suffix,
{
    encode_utf8_valid_utf8(suffix);
    valid_utf8_concat(base, encode_utf8(suffix));
    let t = decode_utf8(base);
    decode_utf8_encode_utf8(base);
    lemma_encode_concat(t, suffix);
    encode_utf8_decode_utf8(t + suffix);
}

/// A numbered backup never takes the name of a file that is there: with the
/// number after the highest one, the name of the backup is none of `names`.
pub proof fn numbered_backup_is_fresh(dst: Seq<u8>, names: Seq<Vec<u8>>, n: u32)
    requires
        file_name_of(dst) is Some,
        valid_utf8(file_name_of(dst).unwrap()),
        match highest_number(shown(file_name_of(dst).unwrap()), name_texts(names)) {
            Some(m) => n > m,
            None => true,
        },
    ensures
        forall|i: int|
            0 <= i < names.len() ==> (#[trigger] names[i])@ != base_name(dst) + encode_utf8(
                number_suffix(n as nat),
            ),
{
    let base = file_name_of(dst).unwrap();
    let name = base + encode_utf8(number_suffix(n as nat));
    lemma_shown_concat(base, number_suffix(n as nat));
    next_number_is_free(shown(base), name_texts(names), n);
    assert forall|i: int| 0 <= i < names.len() implies (#[trigger] names[i])@ != name by {
        if names[i]@ == name {
            assert(name_texts(names)[i] == shown(name));
        }
    }
}

pub(crate) proof fn lemma_dec_ascii(n: nat)
    ensures
        is_ascii_chars(dec(n)),
        forall|i: int| 0 <= i < dec(n).len() ==> dec(n)[i] != '/',
{
    dec_reads_back(n);
    assert forall|i: int| 0 <= i < dec(n).len() implies '\0' <= #[trigger] dec(n)[i] <= '\u{7f}'
        && dec(n)[i] != '/' by {
        assert(is_digit(dec(n)[i]));
    }
}

proof fn lemma_temp_name(base: Seq<u8>, pid: u32)
    requires
        forall|j: int| 0 <= j < base.len() ==> base[j] != SLASH,
    ensures
        is_name(temp_name(base, pid)),
        temp_name(base, pid).len() > base.len() + 9,
{
    reveal_strlit(".wcp-tmp-");
    reveal_strlit("-");
    let text = ".wcp-tmp-"@ + dec(pid as nat) + "-"@;
    lemma_dec_ascii(pid as nat);
    assert(is_ascii_chars(text)) by {
        assert forall|i: int| 0 <= i < text.len() implies '\0' <= #[trigger] text[i] <= '\u{7f}' by {
            if 9 <= i < 9 + dec(pid as nat).len() {
                assert(text[i] == dec(pid as nat)[i - 9]);
            }
        }
    }
    is_ascii_chars_encode_utf8(text);
    let name = temp_name(base, pid);
    assert forall|j: int| 0 <= j < name.len() implies name[j] != SLASH by {
        if j < text.len() {
            assert(name[j] == text[j] as u8);
            if 9 <= j < 9 + dec(pid as nat).len() {
                assert(text[j] == dec(pid as nat)[j - 9]);
            }
        } else {
            assert(name[j] == base[j - text.len()]);
        }
    }
    assert(name.len() > 2);
    assert(name != dot() && name != dotdot());
}

/// The temporary file lies in the directory of its destination, under another
/// name: it can be renamed into place.
pub proof fn temporary_is_beside(dst: Seq<u8>, pid: u32)
    requires
        file_name_of(dst) is Some,
    ensures
        is_abs(temp_target(dst, pid)) == is_abs(dst),
        parts(temp_target(dst, pid)) == parts(dst).drop_last().push(
            temp_name(base_name(dst), pid),
        ),
        temp_name(base_name(dst), pid) != base_name(dst),
{
    let base = base_name(dst);
    lemma_spans_ok(dst);
    let sp = spans(dst);
    let k = sp.len() - 1;
    assert(parts(dst)[k] == dst.subrange(sp[k].0, sp[k].1));
    assert forall|j: int| 0 <= j < base.len() implies base[j] != SLASH by {
        assert(base[j] == dst[sp[k].0 + j]);
    }
    lemma_temp_name(base, pid);
    lemma_with_file_name(dst, temp_name(base, pid));
}

} // verus!
