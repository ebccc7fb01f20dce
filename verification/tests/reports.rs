//! What is counted and what is said.

use w_utils::copy::{job_for, record, record_directory, CopyOptions, DirDone};
use w_utils::engine::{choose_backup, BackupName, Facts, Outcome, Stamp, Times, Why};
use w_utils::messages::say_overwrite_question;
use w_utils::mvops::{
    moved_note, record_copy, record_move, record_removal, renamed_note, validate_pair, MoveStats,
    PairFacts, PlannedAction,
};
use w_utils::options::{BackupControl, Overwrite};
use w_utils::path::RawPath;
use w_utils::plan::{
    ensure_not_nested, is_sparse, nesting, real_nesting, CopyPlan, FileKind, Meta, Nesting,
    PlanEntry, RealPlaces,
};
use w_utils::report::{
    closing, dry_run, error_line, json_move_summary, json_plan, json_summary, json_values,
    move_summary, planned_line, summary, DestSeen, DryRun, Style,
};
use w_utils::stats::CopyStats;
use w_utils::utils::Elapsed;

fn p(s: &str) -> RawPath {
    RawPath::from_bytes(s.as_bytes())
}

fn file(src: &str, dst: &str, size: u64) -> PlanEntry {
    PlanEntry::File { src: p(src), dst: p(dst), size, sparse_hint: false }
}

fn plan(entries: Vec<PlanEntry>) -> CopyPlan {
    let mut total_bytes = 0;
    let mut file_count = 0;
    for e in &entries {
        if let PlanEntry::File { size, .. } = e {
            total_bytes += *size;
            file_count += 1;
        }
    }
    CopyPlan {
        entries,
        total_bytes,
        file_count,
        skipped: Vec::new(),
        excluded: 0,
        errors: Vec::new(),
    }
}

fn every_kind() -> CopyPlan {
    plan(vec![
        PlanEntry::Dir { src: p("d"), dst: p("o") },
        file("d/a", "o/a", 1500),
        PlanEntry::Symlink { src: p("d/l"), dst: p("o/l") },
        PlanEntry::HardLink { link: p("o/a"), dst: p("o/h") },
        PlanEntry::Fifo { src: p("d/f"), dst: p("o/f") },
        PlanEntry::Special { src: p("d/s"), dst: p("o/s") },
    ])
}

fn seen(kind: FileKind, len: u64, secs: i64) -> Option<Facts> {
    let when = Stamp { secs, nanos: 0 };
    Some(Facts {
        kind,
        len,
        mode: 0o644,
        modified: Some(when),
        times: Times { accessed: when, modified: when },
        uid: 0,
        gid: 0,
    })
}

const NOTHING: DestSeen = DestSeen { link: None, reached: None, source: None };

fn texts(lines: &[w_utils::report::Line]) -> Vec<&str> {
    lines.iter().map(|l| l.text.as_str()).collect()
}

const PLAINLY: DryRun = DryRun { overwrite: Overwrite::Clobber, resume: false, backup: None };

#[test]
fn a_plan_is_listed() {
    let lines = dry_run(&every_kind(), &vec![NOTHING; 6], &PLAINLY);
    assert_eq!(
        texts(&lines),
        [
            "créer dir   o",
            "copier      d/a -> o/a (1.50 kB)",
            "lien        d/l -> o/l",
            "lien dur    o/a == o/h",
            "fifo        d/f -> o/f",
            "spécial     d/s -> o/s",
            "1 fichier(s), 1 répertoire(s), 1.50 kB au total",
        ]
    );
    assert!(lines.iter().all(|l| l.style == Style::Plain));
}

#[test]
fn files_in_the_way_are_pointed_out() {
    let mut one = plan(vec![file("a", "b", 10)]);
    let old = seen(FileKind::File, 10, 5);
    let there = vec![DestSeen { link: old, reached: old, source: seen(FileKind::File, 10, 9) }];

    let lines = dry_run(&one, &there, &PLAINLY);
    assert_eq!(lines[0].style, Style::Yellow);
    assert_eq!(lines[0].text, "écraser     a -> b (10 B)");
    assert_eq!(lines[1].style, Style::Warning);
    assert_eq!(
        lines[1].text,
        "1 fichier(s), 0 répertoire(s), 10 B au total — attention : 1 écrasement(s)"
    );

    let saved = DryRun { backup: Some(BackupControl::Simple), ..PLAINLY };
    assert_eq!(dry_run(&one, &there, &saved)[0].text, "écraser     a -> b (10 B) (sauvegarde)");

    let kept = DryRun { overwrite: Overwrite::NoClobber, ..PLAINLY };
    let lines = dry_run(&one, &there, &kept);
    assert_eq!(texts(&lines)[0], "ignoré      b (existe déjà)");
    assert_eq!(lines[1].style, Style::Plain);
    assert_eq!(lines[1].text, "1 fichier(s), 0 répertoire(s), 10 B au total");
    let refused = DryRun { overwrite: Overwrite::NoClobberFail, ..PLAINLY };
    assert_eq!(dry_run(&one, &there, &refused)[0].text, "ignoré      b (existe déjà)");

    let newer = DryRun { overwrite: Overwrite::Update, ..PLAINLY };
    assert_eq!(dry_run(&one, &there, &newer)[0].text, "écraser     a -> b (10 B)");
    let older = vec![DestSeen { source: seen(FileKind::File, 10, 2), ..there[0] }];
    let lines = dry_run(&one, &older, &newer);
    assert_eq!(texts(&lines)[0], "ignoré      b (existe déjà)");
    assert_eq!(lines[1].style, Style::Plain);
    let unknown = vec![DestSeen { source: None, ..there[0] }];
    assert_eq!(dry_run(&one, &unknown, &newer)[0].style, Style::Yellow);

    let resumed = DryRun { resume: true, ..PLAINLY };
    assert_eq!(dry_run(&one, &there, &resumed)[0].text, "présent     a -> b (ignoré)");

    one.skipped.push(p("x"));
    one.excluded = 3;
    let lines = dry_run(&one, &vec![NOTHING], &PLAINLY);
    assert_eq!(texts(&lines)[2..], ["1 fichier(s) spéciaux ignoré(s)", "3 élément(s) exclu(s)"]);
    assert_eq!((lines[2].style, lines[3].style), (Style::Warning, Style::Plain));
}

#[test]
fn a_plan_is_written_as_json() {
    assert_eq!(
        json_plan(&plan(vec![file("a\"b", "c", 7), PlanEntry::Dir { src: p("d"), dst: p("e") }])),
        "{\"entries\":[{\"action\":\"copy\",\"src\":\"a\\\"b\",\"dst\":\"c\",\"size\":7},\
         {\"action\":\"mkdir\",\"src\":\"d\",\"dst\":\"e\",\"size\":0}],\
         \"total_bytes\":7,\"file_count\":1,\"excluded\":0}"
    );
    let all = json_plan(&every_kind());
    for word in ["copy", "symlink", "mkdir", "fifo", "special", "hardlink"] {
        assert!(all.contains(&format!("{{\"action\":\"{word}\",")));
    }
    assert!(json_plan(&plan(Vec::new())).starts_with("{\"entries\":[],"));
}

#[test]
fn results_are_written_as_json() {
    let mut stats = CopyStats::default();
    stats.files_copied = 2;
    stats.bytes_copied = 9;
    stats.push_warning(String::from("attention"));
    stats.push_error(String::from("a\nb"));
    let mut pl = plan(Vec::new());
    pl.excluded = 4;
    assert_eq!(
        json_summary(&pl, &stats, "0.125"),
        "{\"files_copied\":2,\"dirs_created\":0,\"bytes_copied\":9,\"already_present\":0,\
         \"skipped\":0,\"excluded\":4,\"verified\":0,\"duration_secs\":0.125,\
         \"warnings\":[\"attention\"],\"errors\":[\"a\\nb\"]}"
    );
    let mut moved = MoveStats::default();
    moved.renamed = 1;
    moved.copy = stats;
    moved.push_error(String::from("x"));
    assert_eq!(
        json_move_summary(&moved, "1.000"),
        "{\"renamed\":1,\"moved_across\":0,\"skipped\":0,\"files_copied\":2,\"bytes_copied\":9,\
         \"verified\":0,\"duration_secs\":1.000,\"errors\":[\"x\"]}"
    );
}

const SPAN: Elapsed = Elapsed { secs: 2, nanos: 500_000_000 };

#[test]
fn a_single_file_has_its_own_line() {
    let one = plan(vec![file("a", "b", 12_000)]);
    let mut stats = CopyStats::default();
    stats.files_copied = 1;
    assert_eq!(summary(&one, &stats, SPAN, Some(1)).unwrap(), "Copied a → b (12 kB)");
    stats.files_copied = 0;
    stats.skipped = 1;
    assert_eq!(
        summary(&one, &stats, SPAN, Some(2_000)).unwrap(),
        "0 élément(s) copié(s) (0 B) en 2.5s — 2 kB/s, 1 ignoré(s)"
    );
}

#[test]
fn totals_name_what_is_out_of_the_ordinary() {
    let mut many = every_kind();
    many.file_count = 2;
    many.excluded = 3;
    let mut stats = CopyStats::default();
    stats.files_copied = 4;
    stats.dirs_created = 1;
    stats.bytes_copied = 1500;
    stats.already_present = 2;
    stats.skipped = 5;
    stats.verified = 6;
    stats.push_warning(String::new());
    stats.push_error(String::new());
    assert_eq!(
        summary(&many, &stats, SPAN, None).unwrap(),
        "5 élément(s) copié(s) (1.50 kB) en 2.5s — —, 2 déjà présent(s), 5 ignoré(s), \
         3 exclu(s), 6 vérifié(s), 1 avertissement(s), 1 erreur(s)"
    );
}

#[test]
fn moves_are_summed_up() {
    let mut stats = MoveStats::default();
    assert_eq!(move_summary(&stats, SPAN).text, "rien à déplacer en 2.5s");
    stats.renamed = 2;
    stats.moved_across = 1;
    stats.copy.bytes_copied = 1500;
    stats.copy.verified = 1;
    let line = move_summary(&stats, SPAN);
    assert_eq!(
        line.text,
        "2 renommé(s), 1 déplacé(s) cross-device (1.50 kB) en 2.5s, 1 vérifié(s)"
    );
    assert_eq!(line.style, Style::Success);
    stats.renamed = 0;
    stats.moved_across = 0;
    stats.copy.verified = 0;
    stats.skipped = 1;
    stats.push_error(String::from("x"));
    let line = move_summary(&stats, SPAN);
    assert_eq!(line.text, " en 2.5s, 1 ignoré(s), 1 erreur(s)");
    assert_eq!(line.style, Style::Warning);
}

#[test]
fn planned_moves_are_lined_up() {
    let across = PlannedAction::CopyThenDelete { bytes: 1500, files: 2 };
    assert_eq!(
        planned_line(&p("a"), &p("b"), &PlannedAction::Rename, false),
        format!("{:<12} a -> b (instantané)", "renommer")
    );
    assert_eq!(
        planned_line(&p("a"), &p("b"), &across, false),
        format!("{:<12} a -> b (cross-device, 2 fichier(s), 1.50 kB)", "copier+suppr")
    );
    assert_eq!(
        planned_line(&p("a"), &p("b"), &across, true),
        "{\"action\":\"copier+suppr\",\"src\":\"a\",\"dst\":\"b\",\
         \"detail\":\"cross-device, 2 fichier(s), 1.50 kB\"}"
    );
    assert_eq!(error_line("c'est \"non\""), "{\"error\":\"c'est \\\"non\\\"\"}");
    assert_eq!(json_values(&vec![]), "[]");
    assert_eq!(json_values(&vec![String::from("1"), String::from("{}")]), "[1,{}]");
}

#[test]
fn errors_decide_how_a_command_ends() {
    assert!(closing(0, "la copie").is_ok());
    assert_eq!(closing(3, "la copie").unwrap_err(), "3 erreur(s) pendant la copie");
}

#[test]
fn each_failure_has_its_words() {
    let opts = CopyOptions::default();
    let entry = file("a", "b", 1);
    let job = job_for(&entry, &opts, false);
    let said = |entry: &PlanEntry, outcome: Outcome| {
        let mut stats = CopyStats::default();
        record(&mut stats, entry, &job, outcome, 0, "panne");
        assert_eq!(stats.errors.len(), 1);
        assert_eq!(stats.files_copied, 0);
        stats.errors[0].clone()
    };
    assert_eq!(said(&entry, Outcome::Failed(Why::Broken)), "a -> b : panne");
    assert_eq!(said(&entry, Outcome::Failed(Why::Backup)), "a -> b : panne");
    assert_eq!(
        said(&entry, Outcome::Failed(Why::Attributes)),
        "a -> b : impossible de préserver les attributs : panne"
    );
    assert_eq!(
        said(&entry, Outcome::Failed(Why::Mismatch)),
        "a -> b : vérification échouée : la copie diffère de la source"
    );
    assert_eq!(
        said(&PlanEntry::HardLink { link: p("x"), dst: p("y") }, Outcome::DirectoryInTheWay),
        "impossible d'écraser le répertoire 'y' par un lien dur"
    );
    assert_eq!(
        said(&PlanEntry::Dir { src: p("x"), dst: p("y") }, Outcome::Failed(Why::Broken)),
        "impossible de préserver les attributs de 'y' : panne"
    );
    let mut stats = CopyStats::default();
    record_directory(&mut stats, &p("d"), &DirDone::Failed(String::from("refus")));
    record_directory(&mut stats, &p("d"), &DirDone::Made { existed: true });
    assert_eq!((stats.errors, stats.dirs_created), (vec![String::from("d : refus")], 0));
    assert_eq!(say_overwrite_question(&p("b")), "wcp : écraser 'b' ? ");
}

#[test]
fn moves_are_counted() {
    let mut stats = MoveStats::default();
    record_move(&mut stats, &p("a"), &p("b"), Outcome::Renamed, "");
    record_move(&mut stats, &p("a"), &p("b"), Outcome::Skipped, "");
    record_move(&mut stats, &p("a"), &p("b"), Outcome::CrossDevice, "");
    assert_eq!((stats.renamed, stats.skipped, stats.errors.len()), (1, 1, 0));
    record_move(&mut stats, &p("a"), &p("b"), Outcome::Refused, "");
    record_move(&mut stats, &p("a"), &p("b"), Outcome::Failed(Why::Backup), "panne");
    record_move(&mut stats, &p("a"), &p("b"), Outcome::Failed(Why::Broken), "panne");
    assert_eq!(
        stats.errors,
        ["non remplacé : 'b'", "sauvegarde de 'b' : panne", "a -> b : panne"]
    );
    assert_eq!(renamed_note(&p("a"), &p("b")), "a -> b (renommé)");
    assert_eq!(moved_note(&p("a"), &p("b")), "a -> b (copié puis supprimé)");
}

#[test]
fn a_source_goes_only_after_a_clean_copy() {
    let mut stats = MoveStats::default();
    let mut copied = CopyStats::default();
    copied.files_copied = 3;
    assert!(record_copy(&mut stats, &p("a"), &plan(vec![]), copied));
    record_removal(&mut stats, &p("a"), None);
    assert_eq!((stats.moved_across, stats.copy.files_copied), (1, 3));
    record_removal(&mut stats, &p("a"), Some("refus"));
    assert_eq!(
        stats.errors,
        ["copie réussie mais impossible de supprimer la source 'a' : refus"]
    );
    let mut stats = MoveStats::default();
    let mut seen = plan(vec![]);
    seen.errors.push(String::from("vu"));
    assert!(!record_copy(&mut stats, &p("a"), &seen, CopyStats::default()));
    assert_eq!(stats.errors, ["vu", "'a' conservée suite aux erreurs de copie"]);
    assert_eq!(stats.moved_across, 0);

    let mut stats = MoveStats::default();
    let mut partial = plan(vec![]);
    partial.excluded = 1;
    assert!(!record_copy(&mut stats, &p("a"), &partial, CopyStats::default()));
    assert_eq!(stats.errors, ["'a' conservée : la copie n'est pas complète"]);
}

fn meta(kind: FileKind, ino: u64) -> Meta {
    Meta { kind, len: 0, blocks: 0, dev: 1, ino, nlink: 1 }
}

fn apart() -> RealPlaces {
    RealPlaces { source: p("/a"), destination: p("/b") }
}

#[test]
fn senseless_moves_are_named() {
    let why = |src, dst, reaches: bool| {
        let facts = PairFacts { src, dst, dst_reaches_dir: reaches };
        validate_pair(&p("/a"), &p("/b"), &facts, &apart(), &p("/"))
    };
    let dir = Some(meta(FileKind::Dir, 1));
    let plain = Some(meta(FileKind::File, 2));
    let link = Some(meta(FileKind::Symlink, 3));
    assert_eq!(why(plain, plain, false).unwrap(), "'/a' et '/b' sont le même fichier");
    assert_eq!(why(dir, plain, false).unwrap(), "impossible d'écraser '/b' par un répertoire");
    assert_eq!(
        why(plain, dir, true).unwrap(),
        "impossible d'écraser le répertoire '/b' par un fichier"
    );
    assert!(why(dir, link, true).is_none());
    assert!(why(plain, link, true).is_none());
    assert!(why(plain, None, false).is_none());
}

#[test]
fn places_inside_a_directory_are_known() {
    for (src, dst, expected) in [
        ("a", "a/b/c", Nesting::Inside),
        ("./a/", "/w/a/b", Nesting::Inside),
        ("/w/x/../a", "a/b", Nesting::Inside),
        ("", "b", Nesting::Inside),
        ("a", "/w/a/.", Nesting::Same),
        ("a", "ab", Nesting::Apart),
        ("a/b", "a", Nesting::Apart),
    ] {
        assert_eq!(nesting(&p(src), &p(dst), &p("/w")), expected, "{src} {dst}");
        let checked = ensure_not_nested(&p(src), &p(dst), &apart(), &p("/w"));
        assert_eq!(checked.is_ok(), expected == Nesting::Apart);
    }
    for (source, destination, expected) in [
        ("/r/a", "/r/a/b", Nesting::Inside),
        ("/r/a", "/r/a", Nesting::Same),
        ("/r/a", "/r/b", Nesting::Apart),
    ] {
        let places = RealPlaces { source: p(source), destination: p(destination) };
        assert_eq!(real_nesting(&p("/x"), &p("/l/b"), &places, &p("/w")), expected);
        let checked = ensure_not_nested(&p("/x"), &p("/l/b"), &places, &p("/w"));
        match expected {
            Nesting::Apart => assert!(checked.is_ok()),
            Nesting::Same => assert!(checked.unwrap_err().contains("'/x'")),
            Nesting::Inside => assert!(checked.unwrap_err().contains("'/l/b'")),
        }
    }
}

#[test]
fn holes_show_in_the_space_taken() {
    let m = |len, blocks| Meta { kind: FileKind::File, len, blocks, dev: 0, ino: 0, nlink: 1 };
    assert!(is_sparse(&m(1024, 1)));
    assert!(!is_sparse(&m(1024, 2)));
    assert!(!is_sparse(&m(0, 0)));
    assert!(!is_sparse(&m(u64::MAX, u64::MAX)));
}

#[test]
fn backups_are_named_by_control() {
    for (control, highest, expected) in [
        (BackupControl::Simple, Some(3), BackupName::Simple),
        (BackupControl::Numbered, None, BackupName::Numbered(1)),
        (BackupControl::Numbered, Some(3), BackupName::Numbered(4)),
        (BackupControl::Existing, None, BackupName::Simple),
        (BackupControl::Existing, Some(3), BackupName::Numbered(4)),
    ] {
        assert_eq!(choose_backup(control, highest), expected);
    }
}
