use std::path::{Component, Path, PathBuf};
use std::time::Duration;

use w_utils::backup::{
    backup_path, has_numbered_backup, max_numbered_backup, numbered_backup_name, parse_numbered,
    simple_backup_name, temp_path_for,
};
use w_utils::engine::BackupName;
use w_utils::path::{absolutize, in_current_dir, normalize_lexical, strip_root, RawPath};
use w_utils::text::{append_dec, display, is_whitespace, split, trim};
use w_utils::utils::{
    confirms, format_duration, json_escape, json_string_array, parse_rate, rate_parts, Elapsed,
};

fn p(s: &str) -> RawPath {
    RawPath::from_bytes(s.as_bytes())
}

fn text(q: &RawPath) -> String {
    String::from_utf8(q.bytes.clone()).unwrap()
}

fn rate(s: &str) -> Result<u64, String> {
    let number = match rate_parts(s) {
        Ok(parts) => parts.number.parse::<f64>().ok().map(f64::to_bits),
        Err(_) => None,
    };
    parse_rate(s, number)
}

fn elapsed(d: Duration) -> Elapsed {
    Elapsed { secs: d.as_secs(), nanos: d.subsec_nanos() }
}

#[test]
fn normalize_handles_dotdot() {
    assert_eq!(normalize_lexical(&p("/a/b/../c")).bytes, b"/a/c".to_vec());
    assert_eq!(normalize_lexical(&p("/a/./b")).bytes, b"/a/b".to_vec());
}

#[test]
fn parse_numbered_names() {
    assert_eq!(parse_numbered("f", "f.~3~"), Some(3));
    assert_eq!(parse_numbered("f", "f~"), None);
    assert_eq!(parse_numbered("f", "f.~x~"), None);
    assert_eq!(parse_numbered("f", "g.~1~"), None);
}

#[test]
fn duration_under_a_minute() {
    assert_eq!(format_duration(elapsed(Duration::from_millis(4200))), "4.2s");
}

#[test]
fn duration_minutes() {
    assert_eq!(format_duration(elapsed(Duration::from_secs(75))), "1m 15s");
}

#[test]
fn duration_hours() {
    assert_eq!(format_duration(elapsed(Duration::from_secs(3661))), "1:01:01");
}

#[test]
fn rate_with_suffixes() {
    assert_eq!(rate("1024").unwrap(), 1024);
    assert_eq!(rate("512k").unwrap(), 512 * 1024);
    assert_eq!(rate("10M").unwrap(), 10 * 1024 * 1024);
    assert_eq!(rate("1.5g").unwrap(), 1_610_612_736);
    assert_eq!(rate("100b").unwrap(), 100);
}

#[test]
fn rate_rejects_garbage() {
    assert!(rate("0").is_err());
    assert!(rate("-5").is_err());
    assert!(rate("abc").is_err());
    assert!(rate("10t").is_err());
    assert!(rate("").is_err());
}

#[test]
fn rates_are_read_the_same_in_many_ways() {
    for (small, large) in [("3k", "3K"), ("7m", "7M"), ("2g", "2G"), ("9b", "9B")] {
        assert_eq!(rate(small), rate(large));
        assert_eq!(rate(&format!(" \t{small}\n ")), rate(small));
    }
    for v in [1u64, 3, 1000, 4_294_967_295] {
        assert_eq!(rate(&format!("{v}")), Ok(v));
        assert_eq!(rate(&format!(" {v}k")), Ok(v << 10));
        assert_eq!(rate(&format!("{v}M ")), Ok(v << 20));
        assert_eq!(rate(&format!("{v}g")), Ok(v << 30));
    }
    assert_eq!(rate("18446744073709551616k"), Ok(u64::MAX));
}

#[test]
fn rate_errors_say_what_is_wrong() {
    assert_eq!(rate("10t").unwrap_err(), "suffixe inconnu : 't'");
    assert_eq!(rate("  x1 ").unwrap_err(), "débit invalide : 'x1'");
    assert_eq!(rate(" -5k ").unwrap_err(), "le débit doit être positif : '-5k'");
    assert_eq!(rate("").unwrap_err(), "débit invalide : ''");
    assert_eq!(rate("k").unwrap_err(), "débit invalide : 'k'");
}

#[test]
fn rate_agrees_with_doubles() {
    let cases = [
        "1", "0.5", "0.9999999999999999", "1e3", "1e19", "1.8446744073709552e19", "1e300", "1e-300",
        "4.9e-324", "123456789.987654321", "17179869183.999999", "+7", ".5", "5.", "9007199254740993",
    ];
    let suffixes = [("", 1.0), ("b", 1.0), ("K", 1024.0), ("m", 1048576.0), ("G", 1073741824.0)];
    for c in cases {
        for (suffix, mult) in suffixes {
            let s = format!("{c}{suffix}");
            let value: f64 = c.parse().unwrap();
            assert_eq!(rate(&s), Ok((value * mult) as u64), "{s}");
        }
    }
    assert_eq!(parse_rate("1", Some(f64::INFINITY.to_bits())), Ok(u64::MAX));
    assert!(parse_rate("1", Some(f64::NAN.to_bits())).is_err());
    assert!(parse_rate("1", Some((-0.0f64).to_bits())).is_err());
}

#[test]
fn durations_agree_with_doubles() {
    let mut nanos: Vec<u32> = vec![0, 1, 49_999_999, 50_000_000, 50_000_001, 999_999_999, 949_999_999];
    for k in 0..10u32 {
        nanos.push(k * 100_000_000 + 50_000_000);
        nanos.push(k * 100_000_000 + 49_999_999);
        nanos.push(k * 100_000_000 + 50_000_001);
        nanos.push(k * 100_000_000);
    }
    for secs in 0..60u64 {
        for &n in &nanos {
            let d = Duration::new(secs, n);
            assert_eq!(format_duration(elapsed(d)), format!("{:.1}s", d.as_secs_f64()), "{secs} {n}");
        }
    }
    assert_eq!(format_duration(elapsed(Duration::from_secs(60))), "1m 00s");
    assert_eq!(format_duration(elapsed(Duration::from_secs(3599))), "59m 59s");
    assert_eq!(format_duration(elapsed(Duration::from_secs(3600))), "1:00:00");
    assert_eq!(format_duration(elapsed(Duration::from_secs(360_000))), "100:00:00");
}

#[test]
fn white_space_is_that_of_unicode() {
    for u in 0..=0x10ffffu32 {
        if let Some(c) = char::from_u32(u) {
            assert_eq!(is_whitespace(c), c.is_whitespace(), "{u:x}");
        }
    }
    for s in ["", " ", "a", "  a b\t\n", "\u{a0}x\u{3000}", "\u{2028}"] {
        assert_eq!(trim(s), s.trim());
    }
}

#[test]
fn splitting_keeps_empty_pieces() {
    for s in ["", ",", "a", "a,b", ",a,,b,", "é,ü"] {
        let expected: Vec<String> = s.split(',').map(|x| x.to_string()).collect();
        assert_eq!(split(s, ','), expected);
    }
}

#[test]
fn decimal_numbers() {
    for n in [0u64, 9, 10, 99, 100, 12345, u64::MAX] {
        let mut text = String::from("n = ");
        append_dec(&mut text, n);
        assert_eq!(text, format!("n = {n}"));
    }
}

#[test]
fn only_yes_confirms() {
    for (line, expected) in [
        ("y\n", true), ("Yes\n", true), ("o", true), ("  OUI \n", true), ("n\n", false),
        ("\n", false), ("", false), ("non", false), ("ye", true),
    ] {
        assert_eq!(confirms(Some(line)), expected, "{line:?}");
        let answer = line.trim().to_lowercase();
        assert_eq!(expected, answer.starts_with('y') || answer.starts_with('o'));
    }
    assert!(!confirms(None));
    for u in 0..=0x10ffffu32 {
        if let Some(c) = char::from_u32(u) {
            let line = c.to_string();
            let answer = line.trim().to_lowercase();
            let expected = answer.starts_with('y') || answer.starts_with('o');
            assert_eq!(confirms(Some(&line)), expected, "{u:x}");
        }
    }
}

#[test]
fn json_text_is_escaped() {
    assert_eq!(json_escape("a\"b\\c\n\r\t\u{1}\u{1f} é"), "a\\\"b\\\\c\\n\\r\\t\\u0001\\u001f é");
    let list = vec![String::from("un"), String::from("d\"eux")];
    assert_eq!(json_string_array(&list), "[\"un\",\"d\\\"eux\"]");
    assert_eq!(json_string_array(&Vec::new()), "[]");
}

const PATHS: [&str; 34] = [
    "", "/", "//", ".", "..", "./", "../", "a", "a/", "a//", "/a", "/a/", "a/b", "a//b", "a/./b",
    "./a", "././a", "a/.", "a/./", "a/..", "a/../b", "/..", "/../a", "/.", "/./a", "../../x", "a/b/c/",
    "./.", "a/b/..", "/a/b/../c", "é/ü", ".hidden", "a/.b", "a/...",
];

#[test]
fn paths_are_read_as_std_reads_them() {
    for s in PATHS {
        let std_path = Path::new(s);
        let ours = p(s);
        assert_eq!(ours.is_absolute(), std_path.is_absolute(), "{s}");
        assert_eq!(
            ours.file_name().map(|n| String::from_utf8(n).unwrap()),
            std_path.file_name().map(|n| n.to_str().unwrap().to_string()),
            "{s}"
        );
        assert_eq!(
            ours.parent().map(|q| text(&q)),
            std_path.parent().map(|q| q.to_str().unwrap().to_string()),
            "{s}"
        );
        let wanted: Vec<String> = std_path
            .components()
            .filter(|c| !matches!(c, Component::RootDir))
            .map(|c| c.as_os_str().to_str().unwrap().to_string())
            .collect();
        let got: Vec<String> =
            ours.part_list().into_iter().map(|b| String::from_utf8(b).unwrap()).collect();
        assert_eq!(got, wanted, "{s}");
        assert_eq!(ours.has_trailing_slash(), s.ends_with('/'), "{s}");
        assert_eq!(
            text(&ours.with_file_name(&p("new"))),
            std_path.with_file_name("new").to_str().unwrap(),
            "{s}"
        );
    }
}

#[test]
fn paths_are_joined_and_cut_as_std_does() {
    for a in PATHS {
        for b in PATHS {
            assert_eq!(text(&p(a).join(&p(b))), Path::new(a).join(b).to_str().unwrap(), "{a} {b}");
            assert_eq!(
                p(a).strip_prefix(&p(b)).map(|q| text(&q)),
                Path::new(a).strip_prefix(b).ok().map(|q| q.to_str().unwrap().to_string()),
                "{a} {b}"
            );
        }
    }
}

#[test]
fn normalizing_and_stripping_agree_with_components() {
    for s in PATHS {
        let mut normal = PathBuf::new();
        let mut stripped = PathBuf::new();
        for c in Path::new(s).components() {
            match c {
                Component::ParentDir => {
                    normal.pop();
                }
                Component::CurDir => {}
                other => normal.push(other.as_os_str()),
            }
            match c {
                Component::RootDir | Component::CurDir => {}
                other => stripped.push(other.as_os_str()),
            }
        }
        assert_eq!(text(&normalize_lexical(&p(s))), normal.to_str().unwrap(), "{s}");
        assert_eq!(text(&strip_root(&p(s))), stripped.to_str().unwrap(), "{s}");
        let in_cwd = match Path::new(s).parent() {
            None => true,
            Some(parent) => parent.as_os_str().is_empty() || parent == Path::new("."),
        };
        assert_eq!(in_current_dir(&p(s)), in_cwd, "{s}");
    }
    assert_eq!(text(&absolutize(&p("a/b"), &p("/cwd"))), "/cwd/a/b");
    assert_eq!(text(&absolutize(&p("/a/b"), &p("/cwd"))), "/a/b");
}

#[test]
fn paths_that_are_no_text_are_shown_with_a_mark() {
    assert_eq!(display(&p("é")), "é");
    assert_eq!(display(&RawPath::from_bytes(&[b'a', 0xff, b'b'])), "a\u{fffd}b");
}

#[test]
fn backup_names() {
    assert_eq!(text(&simple_backup_name(&p("/d/f.txt"), "~")), "/d/f.txt~");
    assert_eq!(text(&simple_backup_name(&p("f"), ".é")), "f.é");
    assert_eq!(text(&numbered_backup_name(&p("/d/f.txt"), 12)), "/d/f.txt.~12~");
    assert_eq!(text(&backup_path(&p("/d/f"), BackupName::Numbered(1), "~")), "/d/f.~1~");
    assert_eq!(text(&backup_path(&p("/d/f"), BackupName::Simple, ".bak")), "/d/f.bak");
}

#[test]
fn numbered_backups_are_counted_on() {
    let names: Vec<Vec<u8>> = ["f", "f.~1~", "f.~+7~", "f.~007~", "g.~9~", "f.~4294967296~", "f.~~"]
        .iter()
        .map(|s| s.as_bytes().to_vec())
        .collect();
    assert_eq!(max_numbered_backup(&p("/d/f"), &names), Some(7));
    assert!(has_numbered_backup(&p("/d/g"), &names));
    assert_eq!(max_numbered_backup(&p("/d/h"), &names), None);
    assert_eq!(max_numbered_backup(&p("/"), &names), None);
    for s in ["3", "+3", "-3", "003", "", "+", "4294967295", "4294967296", "1a", "++1", "٣"] {
        let candidate = format!("f.~{s}~");
        assert_eq!(parse_numbered("f", &candidate), s.parse::<u32>().ok(), "{s}");
    }
}

#[test]
fn temporary_names_lie_beside_the_destination() {
    assert_eq!(text(&temp_path_for(&p("/d/f.txt"), 42)), "/d/.wcp-tmp-42-f.txt");
    assert_eq!(text(&temp_path_for(&p("f"), 7)), ".wcp-tmp-7-f");
}
