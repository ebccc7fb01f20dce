use std::time::Duration;

use w_utils::engine::Route;
use w_utils::exclude::{build_exclude_matcher, is_excluded, patterns_in};
use w_utils::path::RawPath;
use w_utils::progress::{CopyProgress, Ending};
use w_utils::stats::CopyStats;
use w_utils::temporaries::Temporaries;
use w_utils::transfer::{
    buffer_size, verify_identical, Checksum, Next, ReadDone, Throttle, Transfer, BUFFER_LARGE,
    BUFFER_SMALL,
};
use w_utils::xattr::{xattr_names, XattrAt, XattrCopy, XattrReply};

fn p(s: &str) -> RawPath {
    RawPath::from_bytes(s.as_bytes())
}

fn checksum(data: &[u8], block: usize) -> u64 {
    let mut sum = Checksum::new();
    for chunk in data.chunks(block) {
        assert_eq!(sum.took(ReadDone::Got(chunk.len()), chunk), Next::ReadAgain);
    }
    assert_eq!(sum.took(ReadDone::Got(0), &[]), Next::Finish);
    sum.value()
}

#[test]
fn verify_detects_mismatch() {
    let a = b"identique";
    let mut b = b"identique".to_vec();
    assert!(verify_identical(checksum(a, 4), checksum(&b, 4)).is_ok());
    b = b"different".to_vec();
    assert!(verify_identical(checksum(a, 4), checksum(&b, 4)).is_err());
    assert_eq!(
        verify_identical(1, 2).unwrap_err(),
        "vérification échouée : la copie diffère de la source"
    );
}

#[test]
fn checksums_do_not_depend_on_the_blocks() {
    let data: Vec<u8> = (0..300_000u32).map(|i| (i % 251) as u8).collect();
    let whole = xxhash_rust::xxh3::xxh3_64(&data);
    for block in [1, 7, 240, 1024, 262_144, 1_000_000] {
        assert_eq!(checksum(&data, block), whole, "{block}");
    }
    assert_eq!(checksum(&[], 1), xxhash_rust::xxh3::xxh3_64(&[]));
    let mut sum = Checksum::new();
    assert_eq!(sum.took(ReadDone::Interrupted, &[]), Next::ReadAgain);
    assert_eq!(sum.took(ReadDone::Failed, &[]), Next::Stop);
}

#[test]
fn buffers_grow_with_large_files() {
    assert_eq!(buffer_size(Route::Buffered, (1 << 30) - 1), BUFFER_SMALL);
    assert_eq!(buffer_size(Route::Buffered, 1 << 30), BUFFER_LARGE);
    assert_eq!(buffer_size(Route::Sparse, 1 << 40), BUFFER_SMALL);
    assert_eq!((BUFFER_SMALL, BUFFER_LARGE), (256 * 1024, 4 * 1024 * 1024));
}

/// Writes what a transfer asks for into a file in memory.
fn replay(route: Route, blocks: &[&[u8]]) -> (Vec<u8>, usize) {
    let mut t = Transfer::new(route);
    let mut file: Vec<u8> = Vec::new();
    let mut pos = 0usize;
    let mut written = 0usize;
    for b in blocks {
        match t.took(ReadDone::Got(b.len()), b) {
            Next::Write => {
                file.resize(pos, 0);
                file.extend_from_slice(b);
                written += b.len();
            }
            Next::Skip => {}
            other => panic!("{other:?}"),
        }
        pos += b.len();
    }
    assert_eq!(t.took(ReadDone::Got(0), &[]), Next::Finish);
    if let Some(n) = t.final_length() {
        file.resize(n as usize, 0);
    }
    assert_eq!(t.total as usize, pos);
    (file, written)
}

#[test]
fn holes_keep_the_contents() {
    let blocks: [&[u8]; 5] = [&[0; 8], b"milieu", &[0; 3], b"fin", &[0; 5]];
    let whole: Vec<u8> = blocks.concat();
    assert_eq!(replay(Route::Sparse, &blocks), (whole.clone(), 9));
    assert_eq!(replay(Route::Buffered, &blocks), (whole.clone(), whole.len()));
    let empty: [&[u8]; 0] = [];
    assert_eq!(replay(Route::Sparse, &empty), (Vec::new(), 0));
    let mut t = Transfer::new(Route::Stream);
    assert_eq!(t.took(ReadDone::Interrupted, &[]), Next::ReadAgain);
    assert_eq!(t.took(ReadDone::Failed, &[]), Next::Stop);
    assert_eq!(t.final_length(), None);
}

#[test]
fn throttle_pauses_when_ahead() {
    let mut t = Throttle::new(1_000_000);
    assert_eq!(t.add(500_000, 100_000_000), Some(400_000_000));
    assert_eq!(t.add(0, 499_000_000), None);
    assert_eq!(t.add(0, 498_999_999), Some(1_000_001));
    assert_eq!(t.bytes, 500_000);
    assert_eq!(Throttle::new(0).rate, 1);
}

#[test]
fn throttle_rounds_like_doubles() {
    let due = |total: u64, rate: u64| Throttle::new(rate).add(total, 0).unwrap_or(0);
    assert_eq!(due(2, 3), 666_666_667);
    assert_eq!(due(1, 3), 333_333_333);
    for (total, rate) in [
        (1u64, 7u64),
        (123_456_789, 1_000),
        (1 << 40, 12_345_677),
        (u64::MAX, 2),
        (u64::MAX, 3),
        (u64::MAX - 2_000, 1),
        ((1 << 53) + 1, 1),
        ((1 << 62) + 12_345_678_901, 4_097),
        (9_007_199_254_740_993, 9_007_199_254_740_995),
        (u64::MAX, u64::MAX),
        (1, 900),
    ] {
        let exact = Duration::from_secs_f64(total as f64 / rate as f64);
        assert_eq!(due(total, rate), exact.as_nanos(), "{total} {rate}");
    }
    assert_eq!(due(1, u64::MAX), 0);
    assert!(!Throttle::new(1).has_room(u64::MAX));
    assert!(!Throttle::new(1).has_room(u64::MAX - 1_023));
    assert!(Throttle::new(1).has_room(u64::MAX - 1_024));
    assert!(Throttle::new(2).has_room(u64::MAX));
}

#[test]
fn the_bar_waits_for_a_second() {
    let mut bar = CopyProgress::new(true);
    assert!(bar.is_enabled() && bar.set_current_file());
    assert!(!bar.inc(999_999_999));
    assert!(!bar.log());
    assert_eq!(bar.finish(), Ending::Clear);
    assert!(bar.inc(1_000_000_000));
    assert!(!bar.inc(2_000_000_000));
    assert!(bar.log());
    assert_eq!(bar.finish(), Ending::Keep);
    let mut off = CopyProgress::new(false);
    assert!(!off.inc(5_000_000_000) && !off.log() && !off.set_current_file());
}

#[test]
fn temporaries_come_and_go() {
    let mut t = Temporaries::new();
    t.set_current_tmp(&p("a"));
    t.set_current_tmp(&p("b"));
    t.set_current_tmp(&p("a"));
    assert_eq!(t.len(), 2);
    t.clear_current_tmp(&p("a"));
    t.clear_current_tmp(&p("nope"));
    assert_eq!(t.len(), 1);
    assert_eq!(t.get(0).bytes, b"b".to_vec());
}

#[test]
fn stats_of_workers_add_up() {
    let mut a = CopyStats::default();
    a.files_copied = 2;
    a.bytes_copied = 10;
    a.errors.push(String::from("un"));
    let mut b = CopyStats::default();
    b.files_copied = 3;
    b.verified = 1;
    b.warnings.push(String::from("w"));
    b.errors.push(String::from("deux"));
    assert!(a.can_merge(&b));
    a.merge(b);
    assert_eq!((a.files_copied, a.bytes_copied, a.verified), (5, 10, 1));
    assert_eq!(a.errors, ["un", "deux"]);
    assert_eq!(a.warnings, ["w"]);
    let mut full = CopyStats::default();
    full.files_copied = usize::MAX;
    assert!(!a.can_merge(&full));
    assert!(!full.has_room(0) && a.has_room(7));
}

#[test]
fn xattrs_are_copied_one_by_one() {
    let names = xattr_names(b"user.a\0\0user.b\0");
    assert_eq!(names, [b"user.a".to_vec(), b"user.b".to_vec()]);
    let mut run = XattrCopy::new();
    assert_eq!(run.at, XattrAt::ListLength);
    run.reply(XattrReply::Length(16));
    assert_eq!(run.at, XattrAt::List(16));
    run.reply(XattrReply::Names(Some(b"user.a\0user.b\0".to_vec())));
    assert_eq!(run.at, XattrAt::ValueLength(0));
    run.reply(XattrReply::Length(-1));
    assert_eq!(run.at, XattrAt::ValueLength(1));
    run.reply(XattrReply::Length(3));
    assert_eq!(run.at, XattrAt::Value { number: 1, room: 3 });
    run.reply(XattrReply::Length(2));
    assert_eq!(run.at, XattrAt::Store { number: 1, len: 2 });
    run.reply(XattrReply::Stored);
    assert_eq!(run.at, XattrAt::Done);
    let mut none = XattrCopy::new();
    none.reply(XattrReply::Length(0));
    assert_eq!(none.at, XattrAt::Done);
}

#[test]
fn patterns_match_as_globs() {
    let patterns = vec![String::from("*.log"), String::from("cache"), String::from("a/*/c")];
    let set = build_exclude_matcher(&patterns).ok().unwrap();
    for (path, expected) in [
        ("x.log", true),
        ("sub/x.log", true),
        ("cache", true),
        ("sub/cache", false),
        ("a/b/c", true),
        ("keep.txt", false),
    ] {
        assert_eq!(is_excluded(&p(path), &set), expected, "{path}");
    }
    assert!(!is_excluded(&p("x.log"), &None));
    assert!(build_exclude_matcher(&Vec::new()).ok().unwrap().is_none());
}

#[test]
fn a_bad_pattern_is_named() {
    let patterns = vec![String::from("ok"), String::from("a[b")];
    match build_exclude_matcher(&patterns) {
        Err(e) => assert_eq!(e.message(), "motif d'exclusion invalide : 'a[b'"),
        Ok(_) => panic!("accepted"),
    }
}

#[test]
fn patterns_nested_too_deep_are_refused() {
    let nested = |n: usize, middle: &str| format!("{}{}{}", "{".repeat(n), middle, "}".repeat(n));
    let set = build_exclude_matcher(&vec![nested(40, "a,b")]).ok().unwrap();
    assert!(is_excluded(&p("a"), &set) && !is_excluded(&p("c"), &set));
    let flat = "{a}".repeat(1200);
    let set = build_exclude_matcher(&vec![flat]).ok().unwrap();
    assert!(is_excluded(&p(&"a".repeat(1200)), &set));

    let deep = nested(1001, "a");
    match build_exclude_matcher(&vec![String::from("ok"), deep.clone()]) {
        Err(e) => assert_eq!(e.message(), format!("motif d'exclusion trop imbriqué : '{deep}'")),
        Ok(_) => panic!("accepted"),
    }
    let behind_a_class = format!("[x]{}", nested(1001, "a"));
    assert!(build_exclude_matcher(&vec![behind_a_class]).is_err());

    for start in ["[x]", "[]x]", "[!]x]", "[^x{]", "\\{", "[{{]"] {
        let flat = format!("{start}{}", "{a,b}".repeat(1200));
        let set = build_exclude_matcher(&vec![flat]).ok().unwrap();
        let first = match start {
            "\\{" | "[{{]" => "{",
            "[!]x]" | "[^x{]" => "y",
            _ => "x",
        };
        assert!(is_excluded(&p(&format!("{first}{}", "b".repeat(1200))), &set), "{start}");
    }
}

#[test]
fn pattern_files_hold_one_pattern_a_line() {
    assert_eq!(patterns_in("*.log\n\n  cache \r\n\tx"), ["*.log", "cache", "x"]);
    assert!(patterns_in(" \n").is_empty());
}
