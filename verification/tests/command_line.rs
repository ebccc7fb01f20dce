use clap::{Arg, ArgAction, ArgMatches, Command};

use w_utils::cli::{effective_jobs, named_destination, Args, Config, Surroundings};
use w_utils::options::{
    BackupControl, CopyMode, Deref, Overwrite, Preserve, Reflink, ReflinkWhen, Sparse, SparseWhen,
    UpdateWhen,
};
use w_utils::path::RawPath;
use w_utils::run::{ancestors, check_disk_space, existing_ancestor, MoveArgs};
use w_utils::utils::rate_parts;

fn p(s: &str) -> RawPath {
    RawPath::from_bytes(s.as_bytes())
}

fn text(q: &RawPath) -> String {
    String::from_utf8(q.bytes.clone()).unwrap()
}

/// The flags that the parser leaves when only operands are given.
fn args(operands: &[&str]) -> Args {
    Args {
        paths: operands.iter().map(|s| p(s)).collect(),
        recursive: false,
        archive: false,
        no_dereference_links: false,
        no_dereference: false,
        dereference: false,
        interactive: false,
        no_clobber: false,
        update: None,
        remove_destination: false,
        preserve: None,
        no_preserve: None,
        parents: false,
        one_file_system: false,
        link: false,
        symbolic_link: false,
        backup: None,
        suffix: None,
        target_directory: None,
        no_target_directory: false,
        strip_trailing_slashes: false,
        reflink: None,
        sparse: SparseWhen::Auto,
        attributes_only: false,
        copy_contents: false,
        verbose: false,
        progress: false,
        no_progress: false,
        dry_run: false,
        resume: false,
        verify: false,
        jobs: 0,
        json: false,
        exclude: Vec::new(),
        exclude_from: Vec::new(),
        bwlimit: None,
    }
}

fn flag(id: &'static str, short: Option<char>, long: Option<&'static str>) -> Arg {
    let arg = Arg::new(id).action(ArgAction::SetTrue);
    named(arg, short, long)
}

fn named(arg: Arg, short: Option<char>, long: Option<&'static str>) -> Arg {
    let arg = match short {
        Some(c) => arg.short(c),
        None => arg,
    };
    match long {
        Some(l) => arg.long(l),
        None => arg,
    }
}

/// A flag whose value, if it has one, follows an equals sign.
fn choice(id: &'static str, short: Option<char>, absent: &'static str) -> Arg {
    named(Arg::new(id), short, Some(id))
        .num_args(0..=1)
        .require_equals(true)
        .default_missing_value(absent)
}

/// The flags of the copying program.
fn wcp_flags() -> Command {
    Command::new("wcp")
        .arg(Arg::new("paths").num_args(1..).required(true).action(ArgAction::Append))
        .arg(flag("recursive", Some('r'), Some("recursive")).short_alias('R'))
        .arg(flag("archive", Some('a'), Some("archive")))
        .arg(flag("no_dereference_links", Some('d'), None).overrides_with_all([
            "dereference",
            "no_dereference",
            "dereference_command_line",
        ]))
        .arg(flag("no_dereference", Some('P'), Some("no-dereference")).overrides_with_all([
            "dereference",
            "no_dereference_links",
            "dereference_command_line",
        ]))
        .arg(flag("dereference", Some('L'), Some("dereference")).overrides_with_all([
            "no_dereference",
            "no_dereference_links",
            "dereference_command_line",
        ]))
        .arg(flag("dereference_command_line", Some('H'), None).overrides_with_all([
            "dereference",
            "no_dereference",
            "no_dereference_links",
        ]))
        .arg(
            flag("interactive", Some('i'), Some("interactive"))
                .overrides_with_all(["no_clobber", "update"]),
        )
        .arg(
            flag("no_clobber", Some('n'), Some("no-clobber"))
                .overrides_with_all(["interactive", "update"]),
        )
        .arg(
            choice("update", Some('u'), "older")
                .value_parser(["all", "none", "none-fail", "older"])
                .overrides_with_all(["interactive", "no_clobber", "update"]),
        )
        .arg(
            choice("preserve", Some('p'), "mode,ownership,timestamps").overrides_with("preserve"),
        )
        .arg(
            Arg::new("no_preserve")
                .long("no-preserve")
                .require_equals(true)
                .overrides_with("no_preserve"),
        )
        .arg(
            choice("backup", Some('b'), "existing")
                .value_parser(["none", "numbered", "existing", "simple"])
                .overrides_with("backup"),
        )
        .arg(Arg::new("suffix").short('S').long("suffix"))
        .arg(
            Arg::new("target_directory")
                .short('t')
                .long("target-directory")
                .conflicts_with("no_target_directory"),
        )
        .arg(flag("no_target_directory", Some('T'), Some("no-target-directory")))
        .arg(flag("strip_trailing_slashes", None, Some("strip-trailing-slashes")))
        .arg(flag("verify", None, Some("verify")))
        .arg(flag("json", None, Some("json")))
        .arg(Arg::new("jobs").short('j').long("jobs").default_value("0"))
        .arg(Arg::new("exclude").long("exclude").action(ArgAction::Append))
        .arg(Arg::new("bwlimit").long("bwlimit"))
}

fn words(m: &ArgMatches, id: &str) -> Vec<String> {
    m.get_many::<String>(id).map(|v| v.cloned().collect()).unwrap_or_default()
}

fn word(m: &ArgMatches, id: &str) -> Option<String> {
    m.get_one::<String>(id).cloned()
}

/// What the parser makes of a command line.
fn parse(argv: &[&str]) -> Result<Args, String> {
    let m = wcp_flags().try_get_matches_from(argv).map_err(|e| e.to_string())?;
    let mut a = args(&[]);
    a.paths = words(&m, "paths").iter().map(|s| p(s)).collect();
    a.recursive = m.get_flag("recursive");
    a.archive = m.get_flag("archive");
    a.no_dereference_links = m.get_flag("no_dereference_links");
    a.no_dereference = m.get_flag("no_dereference");
    a.dereference = m.get_flag("dereference");
    a.interactive = m.get_flag("interactive");
    a.no_clobber = m.get_flag("no_clobber");
    a.update = word(&m, "update").map(|w| match w.as_str() {
        "all" => UpdateWhen::All,
        "none" => UpdateWhen::Nothing,
        "none-fail" => UpdateWhen::NoneFail,
        _ => UpdateWhen::Older,
    });
    a.preserve = word(&m, "preserve");
    a.no_preserve = word(&m, "no_preserve");
    a.backup = word(&m, "backup").map(|w| match w.as_str() {
        "none" => BackupControl::Off,
        "numbered" => BackupControl::Numbered,
        "simple" => BackupControl::Simple,
        _ => BackupControl::Existing,
    });
    a.suffix = word(&m, "suffix");
    a.target_directory = word(&m, "target_directory").map(|s| p(&s));
    a.no_target_directory = m.get_flag("no_target_directory");
    a.strip_trailing_slashes = m.get_flag("strip_trailing_slashes");
    a.verify = m.get_flag("verify");
    a.json = m.get_flag("json");
    a.jobs = word(&m, "jobs").unwrap().parse().map_err(|_| String::from("jobs"))?;
    a.exclude = words(&m, "exclude");
    a.bwlimit = word(&m, "bwlimit");
    Ok(a)
}

fn wcp(argv: &[&str]) -> Result<Config, String> {
    resolve(&parse(argv)?)
}

fn wcp_in(argv: &[&str], dest_is_dir: bool, dest_exists: bool) -> Result<Config, String> {
    resolve_in(&parse(argv)?, dest_is_dir, dest_exists)
}

fn number_of(limit: &Option<String>) -> Option<u64> {
    let parts = rate_parts(limit.as_ref()?).ok()?;
    parts.number.parse::<f64>().ok().map(f64::to_bits)
}

fn resolve_in(a: &Args, dest_is_dir: bool, dest_exists: bool) -> Result<Config, String> {
    let seen = Surroundings {
        dest_is_dir,
        dest_exists,
        env_suffix: None,
        rate_number: number_of(&a.bwlimit),
    };
    a.resolve(&seen)
}

fn resolve(a: &Args) -> Result<Config, String> {
    resolve_in(a, false, false)
}

fn everything() -> Preserve {
    Preserve {
        mode: true,
        ownership: true,
        timestamps: true,
        links: true,
        xattr: true,
        context: true,
    }
}

#[test]
fn simple_file_copy() {
    let cfg = wcp(&["wcp", "a", "b"]).unwrap();
    assert_eq!(cfg.sources.len(), 1);
    assert_eq!(text(&cfg.destination), "b");
    assert_eq!(cfg.overwrite, Overwrite::Clobber);
    assert_eq!(cfg.deref, Deref::CommandLine);
    assert!(!cfg.recursive);
}

#[test]
fn missing_destination_is_an_error() {
    assert!(wcp(&["wcp", "a"]).is_err());
    assert_eq!(
        wcp(&["wcp", "a"]).unwrap_err(),
        "opérande de destination manquante après 'a'"
    );
    assert_eq!(resolve(&args(&[])).unwrap_err(), "opérande de destination manquante après ''");
}

#[test]
fn multiple_sources_need_an_existing_dir() {
    let cfg = wcp_in(&["wcp", "x", "y", "/t/dest"], true, true).unwrap();
    assert_eq!(cfg.sources.len(), 2);
    assert_eq!(
        wcp_in(&["wcp", "x", "y", "/t/nope"], false, false).unwrap_err(),
        "la cible '/t/nope' n'existe pas"
    );
    assert_eq!(
        wcp_in(&["wcp", "x", "y", "/t/f"], false, true).unwrap_err(),
        "la cible '/t/f' n'est pas un répertoire"
    );
}

#[test]
fn target_directory_takes_all_as_sources() {
    let argv = ["wcp", "-t", "/t/dest", "a", "b", "c"];
    let cfg = wcp_in(&argv, true, true).unwrap();
    assert_eq!(cfg.sources.len(), 3);
    assert_eq!(text(&cfg.destination), "/t/dest");
    assert_eq!(
        wcp_in(&argv, false, true).unwrap_err(),
        "le répertoire cible '/t/dest' n'existe pas"
    );
    let a = parse(&argv).unwrap();
    assert_eq!(named_destination(&a.paths, &a.target_directory).map(|q| text(&q)).unwrap(), "/t/dest");
    assert_eq!(named_destination(&a.paths, &None).map(|q| text(&q)).unwrap(), "c");
    assert!(named_destination(&Vec::new(), &None).is_none());
}

#[test]
fn no_target_directory_rejects_extra_operands() {
    assert!(wcp(&["wcp", "-T", "a", "b", "c"]).is_err());
    assert_eq!(wcp(&["wcp", "-T", "a", "b", "c"]).unwrap_err(), "opérande supplémentaire 'b'");
    let cfg = wcp(&["wcp", "-T", "a", "b"]).unwrap();
    assert!(cfg.dest_never_dir);
}

#[test]
fn archive_implies_deref_recursive_preserve_all() {
    let cfg = wcp(&["wcp", "-a", "a", "b"]).unwrap();
    assert!(cfg.recursive);
    assert_eq!(cfg.deref, Deref::Never);
    assert_eq!(cfg.preserve, everything());
    assert!(!cfg.explicit_context);
}

#[test]
fn preserve_and_no_preserve_combine() {
    let cfg = wcp(&["wcp", "--preserve=mode,links", "a", "b"]).unwrap();
    assert!(cfg.preserve.mode && cfg.preserve.links);
    assert!(!cfg.preserve.timestamps && !cfg.preserve.ownership);

    let cfg = wcp(&["wcp", "-a", "--no-preserve=ownership,xattr", "a", "b"]).unwrap();
    assert!(!cfg.preserve.ownership && !cfg.preserve.xattr);
    assert!(cfg.preserve.mode && cfg.preserve.timestamps && cfg.preserve.links);

    assert!(wcp(&["wcp", "--preserve=bogus", "a", "b"]).is_err());
    assert_eq!(
        wcp(&["wcp", "--preserve=bogus", "a", "b"]).unwrap_err(),
        "attribut --preserve inconnu : 'bogus'"
    );
}

#[test]
fn short_p_preserves_mode_ownership_timestamps() {
    let cfg = wcp(&["wcp", "-p", "a", "b"]).unwrap();
    assert!(cfg.preserve.mode && cfg.preserve.ownership && cfg.preserve.timestamps);
    assert!(!cfg.preserve.links);
}

#[test]
fn no_dereference_links_sets_never_and_links() {
    let cfg = wcp(&["wcp", "-d", "a", "b"]).unwrap();
    assert_eq!(cfg.deref, Deref::Never);
    assert!(cfg.preserve.links);
}

#[test]
fn overwrite_last_flag_wins() {
    let cfg = wcp(&["wcp", "-n", "-i", "a", "b"]).unwrap();
    assert_eq!(cfg.overwrite, Overwrite::Interactive);
    let cfg = wcp(&["wcp", "-i", "-n", "a", "b"]).unwrap();
    assert_eq!(cfg.overwrite, Overwrite::NoClobber);
}

#[test]
fn update_variants() {
    let cfg = wcp(&["wcp", "-u", "a", "b"]).unwrap();
    assert_eq!(cfg.overwrite, Overwrite::Update);
    let cfg = wcp(&["wcp", "--update=none", "a", "b"]).unwrap();
    assert_eq!(cfg.overwrite, Overwrite::NoClobber);
    let cfg = wcp(&["wcp", "--update=none-fail", "a", "b"]).unwrap();
    assert_eq!(cfg.overwrite, Overwrite::NoClobberFail);
    let cfg = wcp(&["wcp", "--update=all", "a", "b"]).unwrap();
    assert_eq!(cfg.overwrite, Overwrite::Clobber);
}

#[test]
fn backup_default_and_none() {
    let cfg = wcp(&["wcp", "-b", "a", "b"]).unwrap();
    assert_eq!(cfg.backup, Some(BackupControl::Existing));
    assert_eq!(cfg.backup_suffix, "~");
    let cfg = wcp(&["wcp", "--backup=none", "a", "b"]).unwrap();
    assert_eq!(cfg.backup, None);
    let cfg = wcp(&["wcp", "--backup=numbered", "-S", ".bak", "a", "b"]).unwrap();
    assert_eq!(cfg.backup, Some(BackupControl::Numbered));
    assert_eq!(cfg.backup_suffix, ".bak");
}

#[test]
fn suffix_comes_from_the_environment() {
    let a = args(&["a", "b"]);
    let seen = Surroundings {
        dest_is_dir: false,
        dest_exists: false,
        env_suffix: Some(String::from(".orig")),
        rate_number: None,
    };
    assert_eq!(a.resolve(&seen).unwrap().backup_suffix, ".orig");
}

#[test]
fn trailing_slash_marks_follow() {
    let cfg = wcp(&["wcp", "dir/", "out"]).unwrap();
    assert!(cfg.sources[0].follow);
    let cfg = wcp(&["wcp", "--strip-trailing-slashes", "dir/", "out"]).unwrap();
    assert!(!cfg.sources[0].follow);
    let cfg = wcp(&["wcp", "dir", "out"]).unwrap();
    assert!(!cfg.sources[0].follow);
}

#[test]
fn slashes_at_the_end_are_dropped_when_asked() {
    for (given, kept) in [("dir/", "dir"), ("a/b///", "a/b"), ("dir", "dir"), ("//", "/"), ("/", "/")] {
        let cfg = wcp(&["wcp", "--strip-trailing-slashes", given, "out"]).unwrap();
        assert_eq!(text(&cfg.sources[0].path), kept);
        assert!(!cfg.sources[0].follow);
        let cfg = wcp(&["wcp", given, "out"]).unwrap();
        assert_eq!(text(&cfg.sources[0].path), given);
    }
}

#[test]
fn deref_last_flag_wins() {
    let cfg = wcp(&["wcp", "-P", "-L", "a", "b"]).unwrap();
    assert_eq!(cfg.deref, Deref::Always);
    let cfg = wcp(&["wcp", "-L", "-P", "a", "b"]).unwrap();
    assert_eq!(cfg.deref, Deref::Never);
}

#[test]
fn recursive_accepts_capital_r() {
    let cfg = wcp(&["wcp", "-R", "a", "b"]).unwrap();
    assert!(cfg.recursive);
}

#[test]
fn bwlimit_is_parsed_at_resolve() {
    let cfg = wcp(&["wcp", "--bwlimit", "10m", "a", "b"]).unwrap();
    assert_eq!(cfg.bwlimit, Some(10 * 1024 * 1024));
    assert!(wcp(&["wcp", "--bwlimit", "vite", "a", "b"]).is_err());
    assert_eq!(
        wcp(&["wcp", "--bwlimit", "vite", "a", "b"]).unwrap_err(),
        "--bwlimit : suffixe inconnu : 'e'"
    );
    let cfg = wcp(&["wcp", "a", "b"]).unwrap();
    assert_eq!(cfg.bwlimit, None);
}

#[test]
fn extras_default_off() {
    let cfg = wcp(&["wcp", "a", "b"]).unwrap();
    assert!(!cfg.verify && !cfg.json);
    assert_eq!(cfg.jobs, 0);
    assert!(cfg.exclude.is_empty() && cfg.exclude_from.is_empty());

    let cfg =
        wcp(&["wcp", "--verify", "--json", "-j", "4", "--exclude", "*.log", "a", "b"]).unwrap();
    assert!(cfg.verify && cfg.json);
    assert_eq!(cfg.jobs, 4);
    assert_eq!(cfg.exclude, vec![String::from("*.log")]);
}

#[test]
fn parents_needs_a_directory() {
    let mut a = args(&["a", "b"]);
    a.parents = true;
    assert_eq!(
        resolve(&a).unwrap_err(),
        "avec --parents, la destination doit être un répertoire existant"
    );
    assert!(resolve_in(&a, true, true).unwrap().parents);
}

#[test]
fn modes_and_kinds_of_copies() {
    let mut a = args(&["a", "b"]);
    a.link = true;
    a.reflink = Some(ReflinkWhen::Always);
    a.sparse = SparseWhen::Never;
    a.preserve = Some(String::from(" all , mode"));
    let cfg = resolve(&a).unwrap();
    assert_eq!(cfg.mode, CopyMode::Link);
    assert_eq!(cfg.reflink, Reflink::Always);
    assert_eq!(cfg.sparse, Sparse::Never);
    assert!(cfg.explicit_context);
    assert_eq!(cfg.preserve, everything());
    assert!(!cfg.copies_bytes());
    let mut a = args(&["a", "b"]);
    a.symbolic_link = true;
    assert_eq!(resolve(&a).unwrap().mode, CopyMode::Symlink);
}

#[test]
fn attributes_are_set_one_by_one() {
    let mut kept = Preserve::default();
    assert!(!kept.any());
    for name in ["mode", "ownership", "timestamps", "links", "xattr", " context\t"] {
        kept.set(name, true).unwrap();
    }
    assert_eq!(kept, everything());
    kept.set("all", false).unwrap();
    assert!(!kept.any());
    kept.set("all", true).unwrap();
    assert_eq!(kept, Preserve::all());
    kept.set("links", false).unwrap();
    assert!(!kept.links && kept.mode && kept.any());
    assert_eq!(kept.set("Mode", true).unwrap_err(), "attribut --preserve inconnu : 'Mode'");
}

#[test]
fn workers_follow_flags_and_cores() {
    assert_eq!(effective_jobs(0, Overwrite::Clobber, 4), 4);
    assert_eq!(effective_jobs(0, Overwrite::Clobber, 64), 8);
    assert_eq!(effective_jobs(20, Overwrite::Clobber, 4), 20);
    assert_eq!(effective_jobs(20, Overwrite::Interactive, 4), 1);
    assert_eq!(effective_jobs(1, Overwrite::Update, 4), 1);
}

#[test]
fn configuration_becomes_options() {
    let mut a = args(&["a", "b"]);
    a.archive = true;
    a.one_file_system = true;
    a.remove_destination = true;
    a.copy_contents = true;
    a.verify = true;
    a.bwlimit = Some(String::from("1k"));
    let cfg = resolve(&a).unwrap();
    let plan = cfg.plan_config(None);
    assert!(plan.recursive && plan.one_file_system && plan.copy_contents);
    assert!(plan.preserve_links && plan.remove_destination);
    assert!(!plan.parents && !plan.dest_never_dir && plan.exclude.is_none());
    assert_eq!(plan.deref, Deref::Never);
    let opts = cfg.copy_options(64);
    assert_eq!((opts.jobs, opts.bwlimit), (8, Some(1024)));
    assert!(opts.verify && opts.remove_destination && !opts.resume);
    assert_eq!(opts.backup_suffix, "~");
}

#[test]
fn the_bar_is_for_bytes_on_a_terminal() {
    let cfg = resolve(&args(&["a", "b"])).unwrap();
    assert!(cfg.shows_progress(true));
    assert!(!cfg.shows_progress(false));
    let mut a = args(&["a", "b"]);
    a.progress = true;
    assert!(resolve(&a).unwrap().shows_progress(false));
    a.json = true;
    assert!(!resolve(&a).unwrap().shows_progress(true));
    let mut a = args(&["a", "b"]);
    a.no_progress = true;
    assert!(!resolve(&a).unwrap().shows_progress(true));
    let mut a = args(&["a", "b"]);
    a.attributes_only = true;
    assert!(!resolve(&a).unwrap().shows_progress(true));
}

#[test]
fn a_last_line_is_for_terminals() {
    let cfg = resolve(&args(&["a", "b"])).unwrap();
    assert!(cfg.shows_summary(true) && !cfg.shows_summary(false));
    let mut a = args(&["a", "b"]);
    a.no_progress = true;
    assert!(!resolve(&a).unwrap().shows_summary(true));
    a.verbose = true;
    assert!(resolve(&a).unwrap().shows_summary(false));
    a.json = true;
    assert!(!resolve(&a).unwrap().shows_summary(true));
}

fn move_args(operands: &[&str]) -> MoveArgs {
    MoveArgs {
        paths: operands.iter().map(|s| p(s)).collect(),
        interactive: false,
        no_clobber: false,
        update: None,
        backup: None,
        suffix: None,
        target_directory: None,
        no_target_directory: false,
        strip_trailing_slashes: false,
        verbose: false,
        progress: false,
        no_progress: false,
        resume: false,
        verify: false,
        jobs: 0,
        json: false,
        bwlimit: None,
    }
}

#[test]
fn moves_are_resolved_like_copies() {
    let seen = |number| Surroundings {
        dest_is_dir: true,
        dest_exists: true,
        env_suffix: None,
        rate_number: number,
    };
    let mut a = move_args(&["x", "y/", "d"]);
    a.update = Some(UpdateWhen::Older);
    a.backup = Some(BackupControl::Simple);
    a.bwlimit = Some(String::from("2k"));
    a.verify = true;
    let c = a.resolve(&seen(number_of(&a.bwlimit)), 3, true).unwrap();
    assert_eq!(c.sources.len(), 2);
    assert!(!c.sources[0].follow && c.sources[1].follow);
    assert_eq!(text(&c.destination), "d");
    assert_eq!(c.opts.overwrite, Overwrite::Update);
    assert_eq!(c.opts.backup, Some(BackupControl::Simple));
    assert_eq!((c.opts.jobs, c.opts.bwlimit), (3, Some(2048)));
    assert!(c.opts.verify && c.opts.show_progress && c.opts.exclude.is_none());
    a.json = true;
    assert!(!a.resolve(&seen(number_of(&a.bwlimit)), 3, true).unwrap().opts.show_progress);
    a.bwlimit = Some(String::from("x"));
    assert!(a.resolve(&seen(None), 3, true).is_err());
    assert!(move_args(&["x"]).resolve(&seen(None), 1, false).is_err());
}

#[test]
fn room_is_looked_for_at_the_nearest_directory() {
    let up: Vec<String> = ancestors(&p("/a/b/c")).iter().map(text).collect();
    assert_eq!(up, ["/a/b/c", "/a/b", "/a", "/"]);
    let up: Vec<String> = ancestors(&p("a/b")).iter().map(text).collect();
    assert_eq!(up, ["a/b", "a", ""]);
    let near = |path: &str, there: &[bool]| text(&existing_ancestor(&p(path), &there.to_vec()));
    assert_eq!(near("/a/b/c", &[false, true, true, true]), "/a/b");
    assert_eq!(near("/a/b/c", &[false, false, false, false]), "/");
    assert_eq!(near("a/b", &[false, true, false]), "a");
    assert_eq!(near("a/b", &[false, false, false]), ".");
}

#[test]
fn missing_room_is_an_error() {
    assert!(check_disk_space(10, Some(10), &p("/d")).is_ok());
    assert!(check_disk_space(10, None, &p("/d")).is_ok());
    assert_eq!(
        check_disk_space(2_000_000, Some(1_500), &p("/d")).unwrap_err(),
        "espace disque insuffisant : 2 MB requis mais seulement 1.50 kB disponibles sur '/d'"
    );
}
