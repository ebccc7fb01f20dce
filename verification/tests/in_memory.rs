//! Plans and runs carried out on a file system in memory.

use std::collections::BTreeMap;

use w_utils::backup::{backup_path, max_numbered_backup, temp_path_for};
use w_utils::copy::{
    course, is_blocked, job_for, log_line, record, record_directory, schedule, stats_before,
    CopyOptions, DirDone, Step,
};
use w_utils::engine::{
    is_up_to_date, would_overwrite, Facts, Job, Loc, Op, Outcome, Reply, Route, Run, Stamp,
    Times,
};
use w_utils::exclude::build_exclude_matcher;
use w_utils::mvops::{
    copy_options_for, move_job, plan_config_for, plan_one, record_copy, record_move,
    record_removal, removal_of, resolve_dest, same_file_system, validate_pair, MoveOptions,
    MoveStats, PairFacts, PlannedAction, Removal,
};
use w_utils::options::{BackupControl, CopyMode, Deref, Overwrite, Preserve, Reflink};
use w_utils::path::{strip_root, RawPath};
use w_utils::plan::{
    build_plan, dest_root_for, follows, prunes, walk_target, CopyPlan, DestFacts, FileKind, Meta,
    Observed, PlanConfig, PlanEntry, RealPlaces, Sighting, SourceSpec, TreeEvent,
};
use w_utils::stats::CopyStats;
use w_utils::transfer::{buffer_size, Checksum, ReadDone, Throttle};

#[derive(Clone)]
struct Inode {
    kind: FileKind,
    data: Vec<u8>,
    target: String,
    mode: u32,
    accessed: Stamp,
    modified: Stamp,
    uid: u32,
    blocks: u64,
}

struct Fs {
    inodes: Vec<Inode>,
    names: BTreeMap<String, usize>,
    now: i64,
    answer: bool,
    can_share: bool,
    break_transfer: bool,
    spoil_transfer: bool,
    ops: Vec<Op>,
}

fn p(s: &str) -> RawPath {
    RawPath::from_bytes(s.as_bytes())
}

fn text(q: &RawPath) -> String {
    String::from_utf8(q.bytes.clone()).unwrap()
}

fn parent(path: &str) -> String {
    match path.rfind('/') {
        Some(0) => String::from("/"),
        Some(i) => path[..i].to_string(),
        None => String::new(),
    }
}

fn clean(path: &str) -> String {
    let t = path.trim_end_matches('/');
    if t.is_empty() { String::from("/") } else { t.to_string() }
}

impl Fs {
    fn new() -> Fs {
        let mut fs = Fs {
            inodes: Vec::new(),
            names: BTreeMap::new(),
            now: 1_000,
            answer: false,
            can_share: false,
            break_transfer: false,
            spoil_transfer: false,
            ops: Vec::new(),
        };
        for d in ["/", "/t", "/shm"] {
            fs.add(d, FileKind::Dir);
        }
        fs
    }

    fn add(&mut self, path: &str, kind: FileKind) -> usize {
        self.now += 1;
        self.inodes.push(Inode {
            kind,
            data: Vec::new(),
            target: String::new(),
            mode: 0o644,
            accessed: Stamp { secs: self.now, nanos: 5 },
            modified: Stamp { secs: self.now, nanos: 0 },
            uid: 1,
            blocks: 1 << 20,
        });
        let ino = self.inodes.len() - 1;
        self.names.insert(clean(path), ino);
        self.touch_parent(path);
        ino
    }

    /// A directory changes when a name in it comes or goes.
    fn touch_parent(&mut self, path: &str) {
        if let Some(dir) = self.lstat(&parent(&clean(path))) {
            self.now += 1;
            self.inodes[dir].modified = Stamp { secs: self.now, nanos: 0 };
        }
    }

    fn mkdirs(&mut self, path: &str) -> bool {
        let path = clean(path);
        if let Some(ino) = self.stat(&path) {
            return self.inodes[ino].kind == FileKind::Dir;
        }
        if !self.mkdirs(&parent(&path)) {
            return false;
        }
        self.add(&path, FileKind::Dir);
        true
    }

    fn write(&mut self, path: &str, data: &[u8]) {
        self.mkdirs(&parent(path));
        let ino = match self.lstat(path) {
            Some(ino) => ino,
            None => self.add(path, FileKind::File),
        };
        self.now += 1;
        self.inodes[ino].data = data.to_vec();
        self.inodes[ino].modified = Stamp { secs: self.now, nanos: 0 };
    }

    fn symlink(&mut self, target: &str, path: &str) -> bool {
        if self.lstat(path).is_some() {
            return false;
        }
        let ino = self.add(path, FileKind::Symlink);
        self.inodes[ino].target = target.to_string();
        true
    }

    fn hard_link(&mut self, from: &str, to: &str) -> bool {
        match (self.lstat(from), self.lstat(to)) {
            (Some(ino), None) => {
                self.names.insert(to.to_string(), ino);
                true
            }
            _ => false,
        }
    }

    fn lstat(&self, path: &str) -> Option<usize> {
        self.names.get(&clean(path)).copied()
    }

    fn real_path(&self, path: &str) -> Option<String> {
        let mut at = clean(path);
        for _ in 0..10 {
            let ino = *self.names.get(&at)?;
            if self.inodes[ino].kind != FileKind::Symlink {
                return Some(at);
            }
            let target = self.inodes[ino].target.clone();
            at = if target.starts_with('/') {
                target
            } else {
                format!("{}/{}", clean(&parent(&at)), target)
            };
        }
        None
    }

    /// Where the links on the way lead, the last one included.
    fn resolved(&self, path: &str) -> String {
        let mut at = String::from("/");
        for name in path.split('/').filter(|n| !n.is_empty()) {
            let next = if at == "/" { format!("/{name}") } else { format!("{at}/{name}") };
            at = self.real_path(&next).unwrap_or(next);
        }
        at
    }

    fn stat(&self, path: &str) -> Option<usize> {
        self.lstat(&self.real_path(path)?)
    }

    fn read(&self, path: &str) -> Vec<u8> {
        self.inodes[self.stat(path).unwrap()].data.clone()
    }

    fn is_link(&self, path: &str) -> bool {
        self.lstat(path).map(|i| self.inodes[i].kind == FileKind::Symlink).unwrap_or(false)
    }

    fn is_dir(&self, path: &str) -> bool {
        self.stat(path).map(|i| self.inodes[i].kind == FileKind::Dir).unwrap_or(false)
    }

    fn is_there(&self, path: &str) -> bool {
        self.stat(path).is_some()
    }

    fn dev(path: &str) -> u64 {
        if path.starts_with("/shm") { 2 } else { 1 }
    }

    fn meta(&self, path: &str, ino: usize) -> Meta {
        let n = &self.inodes[ino];
        Meta {
            kind: n.kind,
            len: n.data.len() as u64,
            blocks: n.blocks,
            dev: Fs::dev(path),
            ino: ino as u64,
            nlink: self.names.values().filter(|i| **i == ino).count() as u64,
        }
    }

    fn facts(&self, ino: Option<usize>) -> Option<Facts> {
        let n = &self.inodes[ino?];
        Some(Facts {
            kind: n.kind,
            len: n.data.len() as u64,
            mode: n.mode,
            modified: Some(n.modified),
            times: Times { accessed: n.accessed, modified: n.modified },
            uid: n.uid,
            gid: 1,
        })
    }

    fn children(&self, dir: &str) -> Vec<String> {
        let dir = clean(dir);
        self.names.keys().filter(|k| **k != dir && parent(k) == dir).cloned().collect()
    }

    fn rename(&mut self, from: &str, to: &str) -> Reply {
        if Fs::dev(from) != Fs::dev(to) {
            return Reply::CrossDevice;
        }
        let from = clean(from);
        let to = clean(to);
        if self.lstat(&from).is_none() || self.lstat(&parent(&to)).is_none() {
            return Reply::Failed;
        }
        let moved: Vec<(String, usize)> = self
            .names
            .iter()
            .filter(|(k, _)| **k == from || k.starts_with(&format!("{from}/")))
            .map(|(k, v)| (k.clone(), *v))
            .collect();
        for (k, ino) in moved {
            self.names.remove(&k);
            self.names.insert(format!("{to}{}", &k[from.len()..]), ino);
        }
        self.touch_parent(&from);
        self.touch_parent(&to);
        Reply::Done
    }

    fn remove(&mut self, path: &str) -> bool {
        self.touch_parent(path);
        self.names.remove(&clean(path)).is_some()
    }

    fn remove_tree(&mut self, path: &str) -> bool {
        let path = clean(path);
        let gone: Vec<String> = self
            .names
            .keys()
            .filter(|k| **k == path || k.starts_with(&format!("{path}/")))
            .cloned()
            .collect();
        for k in &gone {
            self.names.remove(k);
        }
        !gone.is_empty()
    }

    fn temp_names(&self) -> usize {
        self.names.keys().filter(|k| k.contains(".wcp-tmp")).count()
    }
}

// --- Looking ---------------------------------------------------------------

fn dest_facts(fs: &Fs, dst: &RawPath) -> DestFacts {
    let path = text(dst);
    DestFacts {
        is_link: fs.is_link(&path),
        target: fs.real_path(&path).map(|q| p(&q)),
        file: fs
            .stat(&path)
            .filter(|i| fs.inodes[*i].kind == FileKind::File)
            .map(|i| (Fs::dev(&path), i as u64)),
    }
}

fn walk(
    fs: &Fs,
    dir: &str,
    depth: usize,
    src_root: &RawPath,
    dst_root: &RawPath,
    root_dev: u64,
    cfg: &PlanConfig,
    out: &mut Vec<TreeEvent>,
) {
    for child in fs.children(dir) {
        let ino = if cfg.deref == Deref::Always { fs.stat(&child) } else { fs.lstat(&child) };
        let Some(ino) = ino else {
            out.push(TreeEvent { depth, what: Sighting::Unreadable(child.clone()) });
            continue;
        };
        let path = p(&child);
        let dst = walk_target(&path, src_root, dst_root);
        let event = TreeEvent {
            depth,
            what: Sighting::Entry {
                path,
                kind: fs.inodes[ino].kind,
                meta: Ok(fs.meta(&child, ino)),
                dest: dest_facts(fs, &dst),
            },
        };
        let descend =
            fs.inodes[ino].kind == FileKind::Dir && !prunes(&event, src_root, root_dev, cfg);
        out.push(event);
        if descend {
            walk(fs, &child, depth + 1, src_root, dst_root, root_dev, cfg, out);
        }
    }
}

fn real_places(fs: &Fs, src: &RawPath, dst: &RawPath) -> RealPlaces {
    RealPlaces {
        source: p(&fs.resolved(&text(src))),
        destination: p(&fs.resolved(&text(dst))),
    }
}

fn observe(fs: &Fs, spec: SourceSpec, destination: &RawPath, cfg: &PlanConfig) -> Observed {
    let path = text(&spec.path);
    let ino = if follows(&spec, cfg) { fs.stat(&path) } else { fs.lstat(&path) };
    let root = dest_root_for(&spec.path, destination, fs.is_dir(&text(destination)), cfg);
    let mut tree = Vec::new();
    let meta = match ino {
        Some(i) => {
            let m = fs.meta(&path, i);
            if m.kind == FileKind::Dir {
                walk(fs, &path, 1, &spec.path, &root, m.dev, cfg, &mut tree);
            }
            Ok(m)
        }
        None => Err(String::from("absent")),
    };
    let places = real_places(fs, &spec.path, &root);
    Observed { spec, places, meta, dest: dest_facts(fs, &root), tree }
}

fn plan_of(fs: &Fs, sources: &[&str], destination: &str, cfg: &PlanConfig) -> CopyPlan {
    let dest = p(destination);
    let seen: Vec<Observed> = sources
        .iter()
        .map(|s| observe(fs, SourceSpec { path: p(s), follow: false }, &dest, cfg))
        .collect();
    build_plan(&seen, &dest, fs.is_dir(destination), &p("/t"), cfg).unwrap()
}

fn plan_cfg(recursive: bool) -> PlanConfig {
    PlanConfig {
        recursive,
        deref: Deref::CommandLine,
        parents: false,
        one_file_system: false,
        copy_contents: false,
        preserve_links: false,
        dest_never_dir: false,
        remove_destination: false,
        exclude: None,
    }
}

fn quick_plan(fs: &Fs, src: &str, dst: &str, recursive: bool) -> CopyPlan {
    plan_of(fs, &[src], dst, &plan_cfg(recursive))
}

// --- Doing -----------------------------------------------------------------

struct Places {
    src: String,
    dst: String,
    tmp: String,
    suffix: String,
    link_target: String,
}

impl Places {
    fn new(src: &RawPath, dst: &RawPath, suffix: &str) -> Places {
        Places {
            src: text(src),
            dst: text(dst),
            tmp: text(&temp_path_for(dst, 99)),
            suffix: suffix.to_string(),
            link_target: String::new(),
        }
    }

    fn at(&self, l: Loc) -> String {
        match l {
            Loc::Src => self.src.clone(),
            Loc::Dst => self.dst.clone(),
            Loc::Tmp => self.tmp.clone(),
        }
    }
}

fn done(ok: bool) -> Reply {
    if ok { Reply::Done } else { Reply::Failed }
}

fn checksum(data: &[u8]) -> u64 {
    let mut sum = Checksum::new();
    sum.took(ReadDone::Got(data.len()), data);
    sum.value()
}

fn transfer(fs: &mut Fs, places: &Places, route: Route) -> Reply {
    let Some(src) = fs.stat(&places.src) else { return Reply::Failed };
    let tmp = places.tmp.clone();
    if route == Route::Clone && !fs.can_share {
        fs.write(&tmp, b"");
        return Reply::Failed;
    }
    let mut data = fs.inodes[src].data.clone();
    if fs.break_transfer {
        fs.write(&tmp, &data[..data.len() / 2]);
        return Reply::Failed;
    }
    if fs.spoil_transfer {
        data.push(b'!');
    }
    fs.write(&tmp, &data);
    if route == Route::Fast {
        let mode = fs.inodes[src].mode;
        let ino = fs.lstat(&tmp).unwrap();
        fs.inodes[ino].mode = mode;
    }
    if route == Route::Clone { Reply::Done } else { Reply::Copied(data.len() as u64) }
}

fn perform(fs: &mut Fs, op: Op, places: &mut Places) -> Reply {
    fs.ops.push(op);
    match op {
        Op::Look { at, follow } => {
            let path = places.at(at);
            let ino = if follow { fs.stat(&path) } else { fs.lstat(&path) };
            match fs.facts(ino) {
                Some(f) => Reply::Saw(f),
                None => Reply::Failed,
            }
        }
        Op::Ask => Reply::Answer(fs.answer),
        Op::ListBackups => {
            let dir = parent(&places.dst);
            let names: Vec<Vec<u8>> = fs
                .children(&dir)
                .iter()
                .map(|k| k[k.rfind('/').unwrap() + 1..].as_bytes().to_vec())
                .collect();
            Reply::Highest(max_numbered_backup(&p(&places.dst), &names))
        }
        Op::SetAside(name) => {
            let to = text(&backup_path(&p(&places.dst), name, &places.suffix));
            fs.rename(&places.dst.clone(), &to)
        }
        Op::MakeParent => done(fs.mkdirs(&parent(&places.dst))),
        Op::RemoveFile(l) => done(fs.remove(&places.at(l))),
        Op::RemoveTree => done(fs.remove_tree(&places.dst)),
        Op::HardLink => done(fs.hard_link(&places.src, &places.dst)),
        Op::SymlinkToSource => done(fs.symlink(&places.src, &places.dst)),
        Op::CreateEmpty => {
            fs.write(&places.dst.clone(), b"");
            Reply::Done
        }
        Op::ReadLink => match fs.lstat(&places.src) {
            Some(i) => {
                places.link_target = fs.inodes[i].target.clone();
                Reply::Done
            }
            None => Reply::Failed,
        },
        Op::Relink => done(fs.symlink(&places.link_target, &places.dst)),
        Op::MakeFifo => {
            fs.add(&places.dst, FileKind::Fifo);
            Reply::Done
        }
        Op::Transfer(route) => transfer(fs, places, route),
        Op::CopyPermissions => {
            let mode = fs.inodes[fs.stat(&places.src).unwrap()].mode;
            let ino = fs.stat(&places.tmp).unwrap();
            fs.inodes[ino].mode = mode;
            Reply::Done
        }
        Op::SetOwner { at, uid, .. } => {
            let ino = fs.lstat(&places.at(at)).unwrap();
            fs.inodes[ino].uid = uid;
            Reply::Done
        }
        Op::SetMode { at, mode } => {
            let ino = fs.stat(&places.at(at)).unwrap();
            fs.inodes[ino].mode = mode;
            Reply::Done
        }
        Op::SetTimes { at, times } => {
            let ino = fs.stat(&places.at(at)).unwrap();
            fs.inodes[ino].accessed = times.accessed;
            fs.inodes[ino].modified = times.modified;
            Reply::Done
        }
        Op::SetLinkTimes(times) => {
            let ino = fs.lstat(&places.dst).unwrap();
            fs.inodes[ino].accessed = times.accessed;
            fs.inodes[ino].modified = times.modified;
            Reply::Done
        }
        Op::CopyXattrs { .. } => Reply::Done,
        Op::Checksum(l) => Reply::Checksum(checksum(&fs.read(&places.at(l)))),
        Op::Publish => fs.rename(&places.tmp.clone(), &places.dst.clone()),
        Op::Rename => fs.rename(&places.src.clone(), &places.dst.clone()),
    }
}

fn run(fs: &mut Fs, job: &Job, places: &mut Places) -> (Outcome, u64) {
    let mut run = Run::new(job);
    while let Some(op) = run.operation(job) {
        let reply = perform(fs, op, places);
        run.reply(job, &reply);
    }
    (run.outcome().unwrap(), run.bytes)
}

fn make_directory(fs: &mut Fs, entry: &PlanEntry, stats: &mut CopyStats) {
    let dst = entry.destination();
    let path = text(dst);
    let link = fs.facts(fs.lstat(&path));
    let reached = fs.facts(fs.stat(&path));
    let what = if is_blocked(&link, &reached) {
        DirDone::Blocked
    } else if fs.mkdirs(&path) {
        DirDone::Made { existed: reached.is_some() }
    } else {
        DirDone::Failed(String::from("refus"))
    };
    record_directory(stats, dst, &what);
}

fn run_entry(
    fs: &mut Fs,
    entry: &PlanEntry,
    opts: &CopyOptions,
    watched: bool,
    stats: &mut CopyStats,
) {
    let job = job_for(entry, opts, watched);
    let mut places = Places::new(entry.source(), entry.destination(), &opts.backup_suffix);
    let (outcome, bytes) = run(fs, &job, &mut places);
    record(stats, entry, &job, outcome, bytes, "panne");
}

fn execute(fs: &mut Fs, plan: &CopyPlan, opts: &CopyOptions, watched: bool) -> CopyStats {
    let mut stats = stats_before(plan);
    for step in course(plan, opts, true) {
        match step {
            Step::CheckRoom => {}
            Step::Make(i) => make_directory(fs, &plan.entries[i], &mut stats),
            Step::Share { work, .. } => {
                for i in work {
                    run_entry(fs, &plan.entries[i], opts, watched, &mut stats);
                }
            }
            Step::Link(i) | Step::Dress(i) => {
                run_entry(fs, &plan.entries[i], opts, watched, &mut stats)
            }
        }
    }
    stats
}
fn quiet() -> CopyOptions {
    CopyOptions::default()
}

fn make_tree(fs: &mut Fs) -> &'static str {
    fs.write("/t/d/a.txt", b"aaa");
    fs.write("/t/d/sub/b.txt", b"bbbbb");
    fs.mkdirs("/t/d/empty");
    "/t/d"
}

// --- Planning --------------------------------------------------------------

#[test]
fn plan_single_file() {
    let mut fs = Fs::new();
    fs.write("/t/a.txt", b"hello");
    let plan = quick_plan(&fs, "/t/a.txt", "/t/out", false);
    assert_eq!(plan.file_count, 1);
    assert_eq!(plan.total_bytes, 5);
    assert_eq!(plan.entries.len(), 1);
    assert!(plan.errors.is_empty());
}

#[test]
fn plan_requires_recursive_for_dirs() {
    let mut fs = Fs::new();
    fs.mkdirs("/t/d");
    let plan = quick_plan(&fs, "/t/d", "/t/out", false);
    assert!(plan.entries.is_empty());
    assert_eq!(plan.errors, ["-r non spécifié ; omission du répertoire '/t/d'"]);
}

#[test]
fn plan_missing_source_reported_but_not_fatal() {
    let mut fs = Fs::new();
    fs.write("/t/ok.txt", b"x");
    let plan = plan_of(&fs, &["/t/nope", "/t/ok.txt"], "/t/out", &plan_cfg(false));
    assert_eq!(plan.errors.len(), 1);
    assert_eq!(plan.errors[0], "impossible d'accéder à '/t/nope': absent");
    assert_eq!(plan.file_count, 1);
}

#[test]
fn plan_recursive_walks_tree() {
    let mut fs = Fs::new();
    let src = make_tree(&mut fs);
    let plan = quick_plan(&fs, src, "/t/out", true);
    assert_eq!(plan.file_count, 2);
    assert_eq!(plan.total_bytes, 8);
    assert_eq!(plan.entries.len(), 5);
}

#[test]
fn refuses_copy_into_itself() {
    let mut fs = Fs::new();
    let src = make_tree(&mut fs);
    let plan = quick_plan(&fs, src, "/t/d/sub", true);
    assert!(!plan.errors.is_empty());
    assert_eq!(
        plan.errors[0],
        "impossible de copier '/t/d' dans un de ses sous-répertoires ('/t/d/sub/d')"
    );
}

#[test]
fn refuses_identical_source_and_dest() {
    let mut fs = Fs::new();
    fs.write("/t/a.txt", b"x");
    let plan = quick_plan(&fs, "/t/a.txt", "/t/a.txt", false);
    assert!(!plan.errors.is_empty());
    assert_eq!(plan.errors[0], "'/t/a.txt' et '/t/a.txt' sont le même fichier");
    fs.mkdirs("/t/d");
    let cfg = PlanConfig { dest_never_dir: true, ..plan_cfg(true) };
    let plan = plan_of(&fs, &["/t/d"], "/t/x/../d", &cfg);
    assert_eq!(plan.errors, ["la source et la destination sont identiques : '/t/d'"]);
}

#[test]
fn dangling_destination_symlink_is_refused() {
    let mut fs = Fs::new();
    fs.write("/t/src.txt", b"x");
    fs.symlink("/t/absent", "/t/lien.txt");
    let plan = quick_plan(&fs, "/t/src.txt", "/t/lien.txt", false);
    assert!(!plan.errors.is_empty());
    assert!(plan.entries.is_empty());
}

#[test]
fn same_file_via_hardlink_is_refused() {
    let mut fs = Fs::new();
    fs.write("/t/a.txt", b"x");
    fs.hard_link("/t/a.txt", "/t/b.txt");
    let plan = quick_plan(&fs, "/t/a.txt", "/t/b.txt", false);
    assert!(!plan.errors.is_empty());
}

fn excluding(pattern: &str) -> PlanConfig {
    let set = build_exclude_matcher(&vec![pattern.to_string()]).ok().unwrap();
    PlanConfig { exclude: set, ..plan_cfg(true) }
}

#[test]
fn exclude_skips_matching_files_anywhere() {
    let mut fs = Fs::new();
    fs.write("/t/d/keep.txt", b"k");
    fs.write("/t/d/drop.log", b"x");
    fs.write("/t/d/sub/drop.log", b"x");
    let plan = plan_of(&fs, &["/t/d"], "/t/out", &excluding("*.log"));
    assert_eq!(plan.excluded, 2);
    let stats = execute(&mut fs, &plan, &quiet(), false);
    assert!(stats.errors.is_empty());
    assert!(fs.is_there("/t/out/keep.txt"));
    assert!(!fs.is_there("/t/out/drop.log"));
    assert!(!fs.is_there("/t/out/sub/drop.log"));
}

#[test]
fn exclude_prunes_whole_directories() {
    let mut fs = Fs::new();
    fs.write("/t/d/cache/x.bin", b"x");
    fs.write("/t/d/cache/deep/y.bin", b"y");
    fs.write("/t/d/keep/z.bin", b"z");
    let plan = plan_of(&fs, &["/t/d"], "/t/out", &excluding("cache"));
    assert_eq!(plan.excluded, 1);
    execute(&mut fs, &plan, &quiet(), false);
    assert!(!fs.is_there("/t/out/cache"));
    assert!(fs.is_there("/t/out/keep/z.bin"));
}

#[test]
fn events_below_a_pruned_directory_are_passed_over() {
    let fs = Fs::new();
    let cfg = excluding("cache");
    let entry = |path: &str, depth, kind, len| TreeEvent {
        depth,
        what: Sighting::Entry {
            path: p(path),
            kind,
            meta: Ok(Meta { kind, len, blocks: 1, dev: 1, ino: 500, nlink: 1 }),
            dest: DestFacts { is_link: false, target: None, file: None },
        },
    };
    let seen = vec![Observed {
        spec: SourceSpec { path: p("/t/d"), follow: false },
        places: real_places(&fs, &p("/t/d"), &p("/t/out")),
        meta: Ok(Meta { kind: FileKind::Dir, len: 0, blocks: 0, dev: 1, ino: 400, nlink: 2 }),
        dest: dest_facts(&fs, &p("/t/out")),
        tree: vec![
            entry("/t/d/cache", 1, FileKind::Dir, 0),
            entry("/t/d/cache/x", 2, FileKind::File, 9),
            TreeEvent { depth: 2, what: Sighting::Unreadable(String::from("caché")) },
            TreeEvent { depth: 1, what: Sighting::Unreadable(String::from("vu")) },
            entry("/t/d/z", 1, FileKind::File, 4),
        ],
    }];
    let plan = build_plan(&seen, &p("/t/out"), false, &p("/t"), &cfg).unwrap();
    assert_eq!((plan.excluded, plan.file_count, plan.total_bytes), (1, 1, 4));
    assert_eq!(plan.errors, ["erreur lors du parcours : vu"]);
}

#[test]
fn a_plan_too_large_to_count_is_refused() {
    let fs = Fs::new();
    let huge = |ino| Observed {
        spec: SourceSpec { path: p("/t/h"), follow: false },
        places: real_places(&fs, &p("/t/h"), &p("/t/out")),
        meta: Ok(Meta { kind: FileKind::File, len: u64::MAX, blocks: 0, dev: 1, ino, nlink: 1 }),
        dest: dest_facts(&fs, &p("/t/out")),
        tree: Vec::new(),
    };
    let cfg = plan_cfg(false);
    assert!(build_plan(&vec![huge(7)], &p("/t/out"), false, &p("/t"), &cfg).is_ok());
    assert!(build_plan(&vec![huge(7), huge(8)], &p("/t/out"), false, &p("/t"), &cfg).is_err());
}

#[test]
fn other_file_systems_are_left_aside() {
    let fs = Fs::new();
    let cfg = PlanConfig { one_file_system: true, ..plan_cfg(true) };
    let dir = |path: &str, dev| TreeEvent {
        depth: 1,
        what: Sighting::Entry {
            path: p(path),
            kind: FileKind::Dir,
            meta: Ok(Meta { kind: FileKind::Dir, len: 0, blocks: 0, dev, ino: 9, nlink: 2 }),
            dest: dest_facts(&fs, &p("/t/none")),
        },
    };
    let seen = vec![Observed {
        spec: SourceSpec { path: p("/t/d"), follow: false },
        places: real_places(&fs, &p("/t/d"), &p("/t/out")),
        meta: Ok(Meta { kind: FileKind::Dir, len: 0, blocks: 0, dev: 1, ino: 400, nlink: 2 }),
        dest: dest_facts(&fs, &p("/t/out")),
        tree: vec![dir("/t/d/here", 1), dir("/t/d/there", 3)],
    }];
    let plan = build_plan(&seen, &p("/t/out"), false, &p("/t"), &cfg).unwrap();
    assert_eq!(plan.entries.len(), 2);
    assert_eq!(plan.skipped.len(), 1);
    assert_eq!(stats_before(&plan).warnings, ["ignoré (fichier spécial) : /t/d/there"]);
}

#[test]
fn special_files_are_read_made_or_refused() {
    let mut fs = Fs::new();
    fs.add("/t/dev", FileKind::Other);
    fs.add("/t/tube", FileKind::Fifo);
    let plan = quick_plan(&fs, "/t/dev", "/t/out", false);
    assert!(matches!(plan.entries[0], PlanEntry::Special { .. }));
    let plan = quick_plan(&fs, "/t/tube", "/t/out", true);
    assert!(matches!(plan.entries[0], PlanEntry::Fifo { .. }));
    let plan = quick_plan(&fs, "/t/dev", "/t/out", true);
    assert_eq!(plan.errors, ["'/t/dev' est un fichier spécial, copie non supportée"]);
    let cfg = PlanConfig { copy_contents: true, ..plan_cfg(true) };
    let plan = plan_of(&fs, &["/t/dev", "/t/tube"], "/t/out", &cfg);
    assert!(plan.entries.iter().all(|e| matches!(e, PlanEntry::Special { .. })));
}

// --- Copying ---------------------------------------------------------------

#[test]
fn copies_single_file_content() {
    let mut fs = Fs::new();
    fs.write("/t/a.txt", b"contenu test");
    let plan = quick_plan(&fs, "/t/a.txt", "/t/b.txt", false);
    let stats = execute(&mut fs, &plan, &quiet(), false);
    assert!(stats.errors.is_empty());
    assert_eq!(fs.read("/t/b.txt"), b"contenu test");
    assert_eq!(stats.bytes_copied, 12);
}

#[test]
fn copies_tree_recursively() {
    let mut fs = Fs::new();
    let src = make_tree(&mut fs);
    let plan = quick_plan(&fs, src, "/t/out", true);
    let stats = execute(&mut fs, &plan, &quiet(), false);
    assert!(stats.errors.is_empty());
    assert_eq!(fs.read("/t/out/a.txt"), b"aaa");
    assert_eq!(fs.read("/t/out/sub/b.txt"), b"bbbbb");
    assert!(fs.is_dir("/t/out/empty"));
    assert_eq!((stats.dirs_created, stats.files_copied), (3, 2));
}

#[test]
fn multiple_sources_land_in_dest_dir() {
    let mut fs = Fs::new();
    fs.write("/t/a.txt", b"A");
    fs.write("/t/b.txt", b"B");
    fs.mkdirs("/t/dest");
    let plan = plan_of(&fs, &["/t/a.txt", "/t/b.txt"], "/t/dest", &plan_cfg(false));
    let stats = execute(&mut fs, &plan, &quiet(), false);
    assert!(stats.errors.is_empty());
    assert_eq!(fs.read("/t/dest/a.txt"), b"A");
    assert_eq!(fs.read("/t/dest/b.txt"), b"B");
}

#[test]
fn dest_existing_dir_keeps_source_name() {
    let mut fs = Fs::new();
    fs.write("/t/a.txt", b"x");
    fs.mkdirs("/t/dest");
    let plan = quick_plan(&fs, "/t/a.txt", "/t/dest", false);
    execute(&mut fs, &plan, &quiet(), false);
    assert_eq!(fs.read("/t/dest/a.txt"), b"x");
}

#[test]
fn dest_dir_into_existing_dir_keeps_name() {
    let mut fs = Fs::new();
    let src = make_tree(&mut fs);
    fs.mkdirs("/t/backup");
    let plan = quick_plan(&fs, src, "/t/backup", true);
    execute(&mut fs, &plan, &quiet(), false);
    assert!(fs.is_there("/t/backup/d/a.txt"));
    assert!(fs.is_there("/t/backup/d/sub/b.txt"));
}

#[test]
fn no_temp_files_left_behind() {
    let mut fs = Fs::new();
    let src = make_tree(&mut fs);
    let plan = quick_plan(&fs, src, "/t/out", true);
    execute(&mut fs, &plan, &quiet(), false);
    assert_eq!(fs.temp_names(), 0);
}

#[test]
fn a_broken_transfer_leaves_the_destination_alone() {
    let mut fs = Fs::new();
    fs.write("/t/a.txt", b"nouveau contenu");
    fs.write("/t/b.txt", b"ancien");
    fs.break_transfer = true;
    for opts in [quiet(), CopyOptions { reflink: Reflink::Auto, ..quiet() }] {
        let plan = quick_plan(&fs, "/t/a.txt", "/t/b.txt", false);
        let stats = execute(&mut fs, &plan, &opts, false);
        assert_eq!(stats.errors, ["/t/a.txt -> /t/b.txt : panne"]);
        assert_eq!(fs.read("/t/b.txt"), b"ancien");
        assert_eq!(fs.temp_names(), 0);
    }
}

#[test]
fn copy_with_progress_path_matches_fast_path() {
    let mut fs = Fs::new();
    let data: Vec<u8> = (0..300_000u32).map(|i| (i % 251) as u8).collect();
    fs.write("/t/big.bin", &data);
    let plan = quick_plan(&fs, "/t/big.bin", "/t/big-copy.bin", false);
    let stats = execute(&mut fs, &plan, &quiet(), true);
    assert!(stats.errors.is_empty());
    assert!(fs.ops.contains(&Op::Transfer(Route::Buffered)));
    assert_eq!(fs.read("/t/big-copy.bin"), data);
}

#[test]
fn dest_trailing_slash_creates_dir() {
    let mut fs = Fs::new();
    fs.write("/t/a.txt", b"x");
    let plan = quick_plan(&fs, "/t/a.txt", "/t/newdir/", false);
    execute(&mut fs, &plan, &quiet(), false);
    assert_eq!(fs.read("/t/newdir/a.txt"), b"x");
}

#[test]
fn would_overwrite_detects_existing() {
    let mut fs = Fs::new();
    assert!(!would_overwrite(&fs.facts(fs.lstat("/t/x"))));
    fs.write("/t/x", b"1");
    assert!(would_overwrite(&fs.facts(fs.lstat("/t/x"))));
    assert!(is_up_to_date(&fs.facts(fs.stat("/t/x")), 1));
    assert!(!is_up_to_date(&fs.facts(fs.stat("/t/x")), 2));
    assert!(!is_up_to_date(&fs.facts(fs.stat("/t")), 0));
    assert!(!is_up_to_date(&None, 0));
}

#[test]
fn resume_skips_already_copied_files() {
    let mut fs = Fs::new();
    let src = make_tree(&mut fs);
    fs.mkdirs("/t/backup");
    let opts = CopyOptions { resume: true, ..Default::default() };
    let plan = quick_plan(&fs, src, "/t/backup", true);
    let s1 = execute(&mut fs, &plan, &opts, false);
    assert_eq!(s1.already_present, 0);
    let plan2 = quick_plan(&fs, src, "/t/backup", true);
    let s2 = execute(&mut fs, &plan2, &opts, false);
    assert_eq!(s2.files_copied, 0);
    assert_eq!(s2.already_present, 2);
    assert_eq!(s2.bytes_copied, 0);
}

#[test]
fn resume_recopies_on_size_mismatch() {
    let mut fs = Fs::new();
    let src = make_tree(&mut fs);
    fs.mkdirs("/t/backup");
    let opts = CopyOptions { resume: true, ..Default::default() };
    let plan = quick_plan(&fs, src, "/t/backup", true);
    execute(&mut fs, &plan, &opts, false);
    fs.write("/t/backup/d/a.txt", b"XXXXXX");
    let plan2 = quick_plan(&fs, src, "/t/backup", true);
    let s2 = execute(&mut fs, &plan2, &opts, false);
    assert_eq!(s2.files_copied, 1);
    assert_eq!(s2.already_present, 1);
    assert_eq!(fs.read("/t/backup/d/a.txt"), b"aaa");
}

fn old_and_new(fs: &mut Fs) {
    fs.write("/t/a.txt", b"nouveau");
    fs.write("/t/b.txt", b"ancien");
}

fn age(fs: &mut Fs, path: &str) {
    let ino = fs.stat(path).unwrap();
    fs.inodes[ino].modified = Stamp { secs: 1, nanos: 0 };
}

#[test]
fn no_clobber_never_overwrites() {
    let mut fs = Fs::new();
    old_and_new(&mut fs);
    let opts = CopyOptions { overwrite: Overwrite::NoClobber, ..Default::default() };
    let plan = quick_plan(&fs, "/t/a.txt", "/t/b.txt", false);
    let stats = execute(&mut fs, &plan, &opts, false);
    assert_eq!(stats.skipped, 1);
    assert_eq!(stats.files_copied, 0);
    assert_eq!(fs.read("/t/b.txt"), b"ancien");
    assert!(fs.ops.iter().all(|op| matches!(op, Op::Look { .. })));
}

#[test]
fn copy_update_skips_when_dest_is_newer() {
    let mut fs = Fs::new();
    old_and_new(&mut fs);
    age(&mut fs, "/t/a.txt");
    let opts = CopyOptions { overwrite: Overwrite::Update, ..Default::default() };
    let plan = quick_plan(&fs, "/t/a.txt", "/t/b.txt", false);
    let stats = execute(&mut fs, &plan, &opts, false);
    assert_eq!(stats.skipped, 1);
    assert_eq!(fs.read("/t/b.txt"), b"ancien");
}

#[test]
fn update_overwrites_when_source_is_newer() {
    let mut fs = Fs::new();
    old_and_new(&mut fs);
    age(&mut fs, "/t/b.txt");
    let opts = CopyOptions { overwrite: Overwrite::Update, ..Default::default() };
    let plan = quick_plan(&fs, "/t/a.txt", "/t/b.txt", false);
    let stats = execute(&mut fs, &plan, &opts, false);
    assert_eq!(stats.files_copied, 1);
    assert_eq!(fs.read("/t/b.txt"), b"nouveau");
}

#[test]
fn none_fail_policy_reports_an_error() {
    let mut fs = Fs::new();
    fs.write("/t/a.txt", b"x");
    fs.write("/t/b.txt", b"y");
    let opts = CopyOptions { overwrite: Overwrite::NoClobberFail, ..Default::default() };
    let plan = quick_plan(&fs, "/t/a.txt", "/t/b.txt", false);
    let stats = execute(&mut fs, &plan, &opts, false);
    assert_eq!(stats.errors.len(), 1);
    assert_eq!(stats.errors[0], "non remplacé : '/t/b.txt'");
    assert_eq!(fs.read("/t/b.txt"), b"y");
}

#[test]
fn interactive_asks_first() {
    let mut fs = Fs::new();
    old_and_new(&mut fs);
    let opts = CopyOptions { overwrite: Overwrite::Interactive, ..Default::default() };
    let plan = quick_plan(&fs, "/t/a.txt", "/t/b.txt", false);
    assert_eq!(execute(&mut fs, &plan, &opts, false).skipped, 1);
    assert_eq!(fs.read("/t/b.txt"), b"ancien");
    fs.answer = true;
    assert_eq!(execute(&mut fs, &plan, &opts, false).files_copied, 1);
    assert_eq!(fs.read("/t/b.txt"), b"nouveau");
}

#[test]
fn backup_simple_renames_with_suffix() {
    let mut fs = Fs::new();
    old_and_new(&mut fs);
    let opts = CopyOptions { backup: Some(BackupControl::Simple), ..Default::default() };
    let plan = quick_plan(&fs, "/t/a.txt", "/t/b.txt", false);
    let stats = execute(&mut fs, &plan, &opts, false);
    assert!(stats.errors.is_empty());
    assert_eq!(fs.read("/t/b.txt"), b"nouveau");
    assert_eq!(fs.read("/t/b.txt~"), b"ancien");
}

#[test]
fn backup_numbered_increments() {
    let mut fs = Fs::new();
    fs.write("/t/a.txt", b"n1");
    fs.write("/t/b.txt", b"v0");
    let opts = CopyOptions { backup: Some(BackupControl::Numbered), ..Default::default() };
    let plan = quick_plan(&fs, "/t/a.txt", "/t/b.txt", false);
    execute(&mut fs, &plan, &opts, false);
    assert_eq!(fs.read("/t/b.txt.~1~"), b"v0");
    fs.write("/t/a.txt", b"n2");
    let plan2 = quick_plan(&fs, "/t/a.txt", "/t/b.txt", false);
    execute(&mut fs, &plan2, &opts, false);
    assert_eq!(fs.read("/t/b.txt.~2~"), b"n1");
    assert_eq!(fs.read("/t/b.txt"), b"n2");
}

#[test]
fn backup_existing_goes_on_with_numbers() {
    let mut fs = Fs::new();
    old_and_new(&mut fs);
    let opts = CopyOptions { backup: Some(BackupControl::Existing), ..Default::default() };
    let plan = quick_plan(&fs, "/t/a.txt", "/t/b.txt", false);
    execute(&mut fs, &plan, &opts, false);
    assert_eq!(fs.read("/t/b.txt~"), b"ancien");
    fs.write("/t/b.txt.~4~", b"");
    execute(&mut fs, &plan, &opts, false);
    assert_eq!(fs.read("/t/b.txt.~5~"), b"nouveau");
}

// --- Links -----------------------------------------------------------------

#[test]
fn symlinks_are_recreated() {
    let mut fs = Fs::new();
    fs.write("/t/d/real.txt", b"data");
    fs.symlink("real.txt", "/t/d/link.txt");
    let plan = quick_plan(&fs, "/t/d", "/t/out", true);
    let stats = execute(&mut fs, &plan, &quiet(), false);
    assert!(stats.errors.is_empty());
    assert!(fs.is_link("/t/out/link.txt"));
    assert_eq!(fs.inodes[fs.lstat("/t/out/link.txt").unwrap()].target, "real.txt");
}

#[test]
fn command_line_symlink_is_followed_by_default() {
    let mut fs = Fs::new();
    fs.write("/t/real.txt", b"data");
    fs.symlink("/t/real.txt", "/t/link.txt");
    let plan = quick_plan(&fs, "/t/link.txt", "/t/out.txt", false);
    execute(&mut fs, &plan, &quiet(), false);
    assert!(!fs.is_link("/t/out.txt"));
    assert_eq!(fs.read("/t/out.txt"), b"data");
}

#[test]
fn no_dereference_keeps_command_line_symlink() {
    let mut fs = Fs::new();
    fs.write("/t/real.txt", b"data");
    fs.symlink("/t/real.txt", "/t/link.txt");
    let cfg = PlanConfig { deref: Deref::Never, ..plan_cfg(false) };
    let plan = plan_of(&fs, &["/t/link.txt"], "/t/out.txt", &cfg);
    execute(&mut fs, &plan, &quiet(), false);
    assert!(fs.is_link("/t/out.txt"));
}

#[test]
fn dereference_copies_symlink_targets_as_files() {
    let mut fs = Fs::new();
    fs.write("/t/d/real.txt", b"data");
    fs.symlink("real.txt", "/t/d/link.txt");
    let cfg = PlanConfig { recursive: true, deref: Deref::Always, ..plan_cfg(true) };
    let plan = plan_of(&fs, &["/t/d"], "/t/out", &cfg);
    let stats = execute(&mut fs, &plan, &quiet(), false);
    assert!(stats.errors.is_empty());
    assert!(!fs.is_link("/t/out/link.txt"));
    assert_eq!(fs.read("/t/out/link.txt"), b"data");
}

#[test]
fn writes_through_destination_symlink() {
    let mut fs = Fs::new();
    fs.write("/t/src.txt", b"nouveau");
    fs.write("/t/target.txt", b"ancien");
    fs.symlink("/t/target.txt", "/t/lien.txt");
    let plan = quick_plan(&fs, "/t/src.txt", "/t/lien.txt", false);
    assert!(plan.errors.is_empty());
    execute(&mut fs, &plan, &quiet(), false);
    assert!(fs.is_link("/t/lien.txt"));
    assert_eq!(fs.read("/t/target.txt"), b"nouveau");
}

#[test]
fn remove_destination_replaces_symlink_itself() {
    let mut fs = Fs::new();
    fs.write("/t/src.txt", b"nouveau");
    fs.write("/t/target.txt", b"ancien");
    fs.symlink("/t/target.txt", "/t/lien.txt");
    let cfg = PlanConfig { remove_destination: true, ..plan_cfg(false) };
    let opts = CopyOptions { remove_destination: true, ..Default::default() };
    let plan = plan_of(&fs, &["/t/src.txt"], "/t/lien.txt", &cfg);
    let stats = execute(&mut fs, &plan, &opts, false);
    assert!(stats.errors.is_empty());
    assert!(!fs.is_link("/t/lien.txt"));
    assert_eq!(fs.read("/t/lien.txt"), b"nouveau");
    assert_eq!(fs.read("/t/target.txt"), b"ancien");
}

#[test]
fn link_mode_creates_hard_links() {
    let mut fs = Fs::new();
    fs.write("/t/a.txt", b"data");
    let opts = CopyOptions { mode: CopyMode::Link, ..Default::default() };
    let plan = quick_plan(&fs, "/t/a.txt", "/t/b.txt", false);
    let stats = execute(&mut fs, &plan, &opts, false);
    assert!(stats.errors.is_empty());
    assert_eq!(fs.lstat("/t/a.txt"), fs.lstat("/t/b.txt"));
}

#[test]
fn symlink_mode_creates_links_to_absolute_sources() {
    let mut fs = Fs::new();
    fs.write("/t/a.txt", b"data");
    let opts = CopyOptions { mode: CopyMode::Symlink, ..Default::default() };
    let plan = quick_plan(&fs, "/t/a.txt", "/t/sub/b.txt", false);
    let stats = execute(&mut fs, &plan, &opts, false);
    assert!(stats.errors.is_empty());
    assert_eq!(fs.inodes[fs.lstat("/t/sub/b.txt").unwrap()].target, "/t/a.txt");
    assert_eq!(fs.read("/t/sub/b.txt"), b"data");
}

#[test]
fn relative_links_are_for_the_working_directory() {
    let opts = CopyOptions { mode: CopyMode::Symlink, ..Default::default() };
    let file = |dst: &str| PlanEntry::File { src: p("a"), dst: p(dst), size: 1, sparse_hint: false };
    assert!(job_for(&file("sub/b"), &opts, false).stray_link);
    assert!(!job_for(&file("b"), &opts, false).stray_link);
    assert!(!job_for(&file("./b"), &opts, false).stray_link);
    let mut fs = Fs::new();
    let entry = file("/t/sub/b");
    let job = job_for(&entry, &opts, false);
    let mut places = Places::new(entry.source(), entry.destination(), "~");
    let (outcome, _) = run(&mut fs, &job, &mut places);
    let mut stats = CopyStats::default();
    record(&mut stats, &entry, &job, outcome, 0, "");
    assert_eq!(
        stats.errors,
        ["a -> /t/sub/b : les liens symboliques relatifs ne sont possibles que dans le répertoire courant"]
    );
}

fn twins(fs: &mut Fs) {
    fs.write("/t/d/original", b"data");
    fs.hard_link("/t/d/original", "/t/d/clone");
}

#[test]
fn preserve_links_keeps_hard_links_together() {
    let mut fs = Fs::new();
    twins(&mut fs);
    let cfg = PlanConfig { recursive: true, preserve_links: true, ..plan_cfg(true) };
    let plan = plan_of(&fs, &["/t/d"], "/t/out", &cfg);
    assert_eq!((plan.file_count, plan.total_bytes), (1, 4));
    let stats = execute(&mut fs, &plan, &quiet(), false);
    assert!(stats.errors.is_empty());
    assert_eq!(fs.lstat("/t/out/original"), fs.lstat("/t/out/clone"));
}

#[test]
fn without_preserve_links_hard_links_are_split() {
    let mut fs = Fs::new();
    twins(&mut fs);
    let plan = quick_plan(&fs, "/t/d", "/t/out", true);
    execute(&mut fs, &plan, &quiet(), false);
    assert_ne!(fs.lstat("/t/out/original"), fs.lstat("/t/out/clone"));
}

#[test]
fn parallel_preserves_hard_links_after_phase_two() {
    let mut fs = Fs::new();
    twins(&mut fs);
    let cfg = PlanConfig { recursive: true, preserve_links: true, ..plan_cfg(true) };
    let plan = plan_of(&fs, &["/t/d"], "/t/out", &cfg);
    let opts = CopyOptions { jobs: 4, ..Default::default() };
    let stats = execute(&mut fs, &plan, &opts, false);
    assert!(stats.errors.is_empty());
    assert_eq!(fs.lstat("/t/out/original"), fs.lstat("/t/out/clone"));
}

#[test]
fn workers_never_outnumber_the_work() {
    let mut fs = Fs::new();
    let src = make_tree(&mut fs);
    let plan = quick_plan(&fs, src, "/t/out", true);
    for (jobs, expected) in [(0, 1), (1, 1), (2, 2), (16, 2)] {
        assert_eq!(schedule(&plan, &CopyOptions { jobs, ..quiet() }).workers, expected);
    }
    let order = schedule(&plan, &CopyOptions { preserve: Preserve::all(), ..quiet() });
    assert_eq!(order.dress, order.make.iter().rev().copied().collect::<Vec<usize>>());
    assert!(schedule(&plan, &quiet()).dress.is_empty());
    assert_eq!(order.make.len() + order.data.len() + order.links.len(), plan.entries.len());
}

// --- Attributes, holes, special files --------------------------------------

#[test]
fn archive_preserves_permissions_and_times() {
    let mut fs = Fs::new();
    fs.write("/t/x.sh", b"#!/bin/sh\n");
    let ino = fs.stat("/t/x.sh").unwrap();
    fs.inodes[ino].mode = 0o750;
    fs.inodes[ino].modified = Stamp { secs: 1_500_000_000, nanos: 0 };
    fs.inodes[ino].uid = 33;
    let opts = CopyOptions { preserve: Preserve::all(), ..Default::default() };
    let plan = quick_plan(&fs, "/t/x.sh", "/t/y.sh", false);
    let stats = execute(&mut fs, &plan, &opts, false);
    assert!(stats.errors.is_empty());
    let copy = &fs.inodes[fs.stat("/t/y.sh").unwrap()];
    assert_eq!(copy.mode & 0o777, 0o750);
    assert_eq!(copy.modified, Stamp { secs: 1_500_000_000, nanos: 0 });
    assert_eq!(copy.uid, 33);
}

#[test]
fn attributes_only_creates_empty_file_with_mode() {
    let mut fs = Fs::new();
    fs.write("/t/a.txt", b"du contenu");
    let opts = CopyOptions { attributes_only: true, ..Default::default() };
    let plan = quick_plan(&fs, "/t/a.txt", "/t/b.txt", false);
    let stats = execute(&mut fs, &plan, &opts, false);
    assert!(stats.errors.is_empty());
    assert_eq!(fs.read("/t/b.txt"), b"");
    assert_eq!(stats.bytes_copied, 0);
}

#[test]
fn parents_recreates_full_source_path() {
    let mut fs = Fs::new();
    fs.write("/t/a/b/c.txt", b"x");
    let cfg = PlanConfig { parents: true, ..plan_cfg(false) };
    let plan = plan_of(&fs, &["/t/a/b/c.txt"], "/t/out", &cfg);
    execute(&mut fs, &plan, &quiet(), false);
    let expected = p("/t/out").join(&strip_root(&p("/t/a/b/c.txt")));
    assert_eq!(fs.read(&text(&expected)), b"x");
}

#[test]
fn sparse_copy_keeps_content_and_size() {
    let mut fs = Fs::new();
    let mut data = vec![0u8; 1024 * 1024];
    data.extend_from_slice(b"fin");
    fs.write("/t/creux.bin", &data);
    let ino = fs.stat("/t/creux.bin").unwrap();
    fs.inodes[ino].blocks = 8;
    let plan = quick_plan(&fs, "/t/creux.bin", "/t/copie.bin", false);
    assert!(matches!(plan.entries[0], PlanEntry::File { sparse_hint: true, .. }));
    let stats = execute(&mut fs, &plan, &quiet(), false);
    assert!(stats.errors.is_empty());
    assert!(fs.ops.contains(&Op::Transfer(Route::Sparse)));
    assert_eq!(fs.read("/t/copie.bin").len(), 1024 * 1024 + 3);
    assert_eq!(fs.read("/t/copie.bin"), data);
}

#[test]
fn recursive_copy_recreates_fifos() {
    let mut fs = Fs::new();
    fs.mkdirs("/t/d");
    fs.add("/t/d/tube", FileKind::Fifo);
    let plan = quick_plan(&fs, "/t/d", "/t/out", true);
    let stats = execute(&mut fs, &plan, &quiet(), false);
    assert!(stats.errors.is_empty());
    assert_eq!(fs.inodes[fs.lstat("/t/out/tube").unwrap()].kind, FileKind::Fifo);
}

#[test]
fn dev_null_is_copied_as_empty_file() {
    let mut fs = Fs::new();
    fs.add("/t/null", FileKind::Other);
    let plan = quick_plan(&fs, "/t/null", "/t/vide", false);
    let stats = execute(&mut fs, &plan, &quiet(), false);
    assert!(stats.errors.is_empty());
    assert_eq!(fs.read("/t/vide"), b"");
}

#[test]
fn file_over_existing_directory_is_an_error() {
    let mut fs = Fs::new();
    fs.write("/t/a.txt", b"x");
    fs.mkdirs("/t/d");
    let cfg = PlanConfig { dest_never_dir: true, ..plan_cfg(false) };
    let plan = plan_of(&fs, &["/t/a.txt"], "/t/d", &cfg);
    let stats = execute(&mut fs, &plan, &quiet(), false);
    assert_eq!(stats.errors.len(), 1);
    assert_eq!(stats.errors[0], "impossible d'écraser le répertoire '/t/d' par un fichier");
    assert!(fs.is_dir("/t/d"));
}

#[test]
fn links_and_directories_do_not_replace_each_other() {
    let mut fs = Fs::new();
    fs.symlink("x", "/t/lien");
    fs.mkdirs("/t/d");
    let cfg = PlanConfig { dest_never_dir: true, deref: Deref::Never, ..plan_cfg(true) };
    let plan = plan_of(&fs, &["/t/lien"], "/t/d", &cfg);
    let stats = execute(&mut fs, &plan, &quiet(), false);
    assert_eq!(
        stats.errors,
        ["/t/lien -> /t/d : impossible d'écraser le répertoire '/t/d' par un lien symbolique"]
    );
    fs.write("/t/f", b"");
    let plan = plan_of(&fs, &["/t/d"], "/t/f", &cfg);
    let stats = execute(&mut fs, &plan, &quiet(), false);
    assert_eq!(stats.errors, ["impossible d'écraser '/t/f' par un répertoire"]);
}

// --- Checks ----------------------------------------------------------------

#[test]
fn verify_passes_on_intact_copy() {
    let mut fs = Fs::new();
    let src = make_tree(&mut fs);
    let opts = CopyOptions { verify: true, ..Default::default() };
    let plan = quick_plan(&fs, src, "/t/out", true);
    let stats = execute(&mut fs, &plan, &opts, false);
    assert!(stats.errors.is_empty());
    assert_eq!(stats.verified, 2);
    assert_eq!(fs.read("/t/out/a.txt"), b"aaa");
}

#[test]
fn verify_keeps_a_spoilt_copy_from_its_name() {
    let mut fs = Fs::new();
    old_and_new(&mut fs);
    fs.spoil_transfer = true;
    let opts = CopyOptions { verify: true, ..Default::default() };
    let plan = quick_plan(&fs, "/t/a.txt", "/t/b.txt", false);
    let stats = execute(&mut fs, &plan, &opts, false);
    assert_eq!(
        stats.errors,
        ["/t/a.txt -> /t/b.txt : vérification échouée : la copie diffère de la source"]
    );
    assert_eq!(fs.read("/t/b.txt"), b"ancien");
    assert_eq!(fs.temp_names(), 0);
}

#[test]
fn blocks_are_shared_when_possible() {
    let mut fs = Fs::new();
    fs.write("/t/a.txt", b"data");
    let auto = CopyOptions { reflink: Reflink::Auto, ..Default::default() };
    let always = CopyOptions { reflink: Reflink::Always, ..Default::default() };
    let plan = quick_plan(&fs, "/t/a.txt", "/t/b.txt", false);
    assert_eq!(execute(&mut fs, &plan, &auto, false).files_copied, 1);
    assert!(fs.ops.contains(&Op::Transfer(Route::Fast)));
    assert_eq!(execute(&mut fs, &plan, &always, false).errors.len(), 1);
    fs.can_share = true;
    let stats = execute(&mut fs, &plan, &always, false);
    assert_eq!((stats.files_copied, stats.bytes_copied), (1, 4));
    let limited = CopyOptions { reflink: Reflink::Auto, bwlimit: Some(1), ..Default::default() };
    fs.ops.clear();
    execute(&mut fs, &plan, &limited, false);
    assert!(!fs.ops.contains(&Op::Transfer(Route::Clone)));
    assert!(fs.ops.contains(&Op::Transfer(Route::Buffered)));
}

#[test]
fn parallel_copy_matches_sequential() {
    let mut fs = Fs::new();
    for i in 0..20 {
        fs.write(&format!("/t/d/sub{i}/f{i}.bin"), format!("contenu-{i}").as_bytes());
    }
    let opts = CopyOptions { jobs: 4, ..Default::default() };
    let plan = quick_plan(&fs, "/t/d", "/t/out", true);
    let stats = execute(&mut fs, &plan, &opts, false);
    assert!(stats.errors.is_empty());
    assert_eq!(stats.files_copied, 20);
    for i in 0..20 {
        assert_eq!(fs.read(&format!("/t/out/sub{i}/f{i}.bin")), format!("contenu-{i}").as_bytes());
    }
}

#[test]
fn copies_are_noted_when_asked() {
    let opts = CopyOptions { verify: true, ..Default::default() };
    let file = PlanEntry::File { src: p("a"), dst: p("b"), size: 12_000, sparse_hint: false };
    let job = job_for(&file, &opts, false);
    assert_eq!(log_line(&file, &job, true, Outcome::Copied).unwrap(), "a -> b (12 kB, vérifié)");
    assert!(log_line(&file, &job, false, Outcome::Copied).is_none());
    assert!(log_line(&file, &job, true, Outcome::Skipped).is_none());
    let plain = job_for(&file, &quiet(), false);
    assert_eq!(log_line(&file, &plain, true, Outcome::Copied).unwrap(), "a -> b (12 kB)");
    let link = PlanEntry::Symlink { src: p("a"), dst: p("b") };
    assert_eq!(log_line(&link, &job, true, Outcome::Copied).unwrap(), "a -> b (lien symbolique)");
    let twin = PlanEntry::HardLink { link: p("a"), dst: p("b") };
    assert_eq!(log_line(&twin, &job, true, Outcome::Copied).unwrap(), "a == b (lien dur)");
}

// --- Moving ----------------------------------------------------------------

fn pair(fs: &Fs, src: &str, dst: &str) -> PairFacts {
    PairFacts {
        src: fs.lstat(src).map(|i| fs.meta(src, i)),
        dst: fs.lstat(dst).map(|i| fs.meta(dst, i)),
        dst_reaches_dir: fs.is_dir(dst),
    }
}

fn move_one(fs: &mut Fs, src: &str, destination: &str, opts: &MoveOptions, stats: &mut MoveStats) {
    let source = p(src);
    let dst = resolve_dest(&source, &p(destination), fs.is_dir(destination), opts.dest_never_dir);
    let facts = pair(fs, src, &text(&dst));
    let links = real_places(fs, &source, &dst);
    if let Some(e) = validate_pair(&source, &dst, &facts, &links, &p("/t")) {
        stats.push_error(e);
        return;
    }
    let job = move_job(opts, &dst);
    let mut places = Places::new(&source, &dst, &opts.backup_suffix);
    let (outcome, _) = run(fs, &job, &mut places);
    record_move(stats, &source, &dst, outcome, "panne");
    if outcome != Outcome::CrossDevice {
        return;
    }
    let plan = plan_of(fs, &[src], destination, &plan_config_for(opts));
    let copy_opts = copy_options_for(opts, facts.src.unwrap().kind == FileKind::Dir);
    let copied = execute(fs, &plan, &copy_opts, opts.show_progress);
    if record_copy(stats, &source, &plan, copied) {
        let gone = match removal_of(fs.inodes[fs.lstat(src).unwrap()].kind) {
            Removal::Tree => fs.remove_tree(src),
            Removal::File => fs.remove(src),
        };
        record_removal(stats, &source, if gone { None } else { Some("refus") });
    }
}

fn run_move(fs: &mut Fs, sources: &[&str], destination: &str, opts: &MoveOptions) -> MoveStats {
    let mut stats = MoveStats::default();
    for s in sources {
        move_one(fs, s, destination, opts, &mut stats);
    }
    stats
}

#[test]
fn rename_moves_file_instantly() {
    let mut fs = Fs::new();
    fs.write("/t/a.txt", b"data");
    let stats = run_move(&mut fs, &["/t/a.txt"], "/t/b.txt", &MoveOptions::default());
    assert!(stats.errors.is_empty());
    assert_eq!(stats.renamed, 1);
    assert!(!fs.is_there("/t/a.txt"));
    assert_eq!(fs.read("/t/b.txt"), b"data");
}

#[test]
fn move_multiple_sources_into_dir() {
    let mut fs = Fs::new();
    fs.write("/t/a.txt", b"A");
    fs.write("/t/b.txt", b"B");
    fs.mkdirs("/t/dest");
    let stats = run_move(&mut fs, &["/t/a.txt", "/t/b.txt"], "/t/dest", &MoveOptions::default());
    assert!(stats.errors.is_empty());
    assert_eq!(stats.renamed, 2);
    assert_eq!(fs.read("/t/dest/a.txt"), b"A");
    assert!(!fs.is_there("/t/a.txt") && !fs.is_there("/t/b.txt"));
}

#[test]
fn move_replaces_destination_symlink_itself() {
    let mut fs = Fs::new();
    fs.write("/t/src.txt", b"nouveau");
    fs.write("/t/target.txt", b"ancien");
    fs.symlink("/t/target.txt", "/t/lien.txt");
    let stats = run_move(&mut fs, &["/t/src.txt"], "/t/lien.txt", &MoveOptions::default());
    assert!(stats.errors.is_empty());
    assert!(!fs.is_link("/t/lien.txt"));
    assert_eq!(fs.read("/t/lien.txt"), b"nouveau");
    assert_eq!(fs.read("/t/target.txt"), b"ancien");
}

#[test]
fn move_symlink_keeps_it_a_symlink() {
    let mut fs = Fs::new();
    fs.write("/t/real.txt", b"data");
    fs.symlink("real.txt", "/t/lien.txt");
    let stats = run_move(&mut fs, &["/t/lien.txt"], "/t/out.txt", &MoveOptions::default());
    assert!(stats.errors.is_empty());
    assert!(fs.is_link("/t/out.txt"));
    assert_eq!(fs.inodes[fs.lstat("/t/out.txt").unwrap()].target, "real.txt");
}

#[test]
fn no_clobber_skips_move() {
    let mut fs = Fs::new();
    old_and_new(&mut fs);
    let opts = MoveOptions { overwrite: Overwrite::NoClobber, ..Default::default() };
    let stats = run_move(&mut fs, &["/t/a.txt"], "/t/b.txt", &opts);
    assert_eq!(stats.skipped, 1);
    assert!(fs.is_there("/t/a.txt"));
    assert_eq!(fs.read("/t/b.txt"), b"ancien");
}

#[test]
fn mvops_update_skips_when_dest_is_newer() {
    let mut fs = Fs::new();
    old_and_new(&mut fs);
    age(&mut fs, "/t/a.txt");
    let opts = MoveOptions { overwrite: Overwrite::Update, ..Default::default() };
    let stats = run_move(&mut fs, &["/t/a.txt"], "/t/b.txt", &opts);
    assert_eq!(stats.skipped, 1);
    assert!(fs.is_there("/t/a.txt"));
}

#[test]
fn backup_on_rename_overwrite() {
    let mut fs = Fs::new();
    old_and_new(&mut fs);
    let opts = MoveOptions { backup: Some(BackupControl::Simple), ..Default::default() };
    let stats = run_move(&mut fs, &["/t/a.txt"], "/t/b.txt", &opts);
    assert!(stats.errors.is_empty());
    assert_eq!(fs.read("/t/b.txt"), b"nouveau");
    assert_eq!(fs.read("/t/b.txt~"), b"ancien");
}

#[test]
fn same_file_via_hardlink_refused() {
    let mut fs = Fs::new();
    fs.write("/t/a.txt", b"x");
    fs.hard_link("/t/a.txt", "/t/b.txt");
    let stats = run_move(&mut fs, &["/t/a.txt"], "/t/b.txt", &MoveOptions::default());
    assert_eq!(stats.errors.len(), 1);
    assert!(fs.is_there("/t/a.txt"));
}

#[test]
fn dir_onto_file_is_an_error() {
    let mut fs = Fs::new();
    fs.mkdirs("/t/d");
    fs.write("/t/f.txt", b"x");
    let stats = run_move(&mut fs, &["/t/d"], "/t/f.txt", &MoveOptions::default());
    assert_eq!(stats.errors.len(), 1);
    assert!(fs.is_dir("/t/d"));
}

#[test]
fn move_into_own_subdir_refused() {
    let mut fs = Fs::new();
    fs.write("/t/d/a.txt", b"x");
    let stats = run_move(&mut fs, &["/t/d"], "/t/d/sub", &MoveOptions::default());
    assert_eq!(stats.errors.len(), 1);
    assert!(fs.is_dir("/t/d"));
}

#[test]
fn missing_source_cannot_be_moved() {
    let mut fs = Fs::new();
    let stats = run_move(&mut fs, &["/t/nope"], "/t/x", &MoveOptions::default());
    assert_eq!(stats.errors, ["impossible d'accéder à '/t/nope'"]);
}

#[test]
fn dry_run_touches_nothing() {
    let mut fs = Fs::new();
    fs.write("/t/a.txt", b"data");
    let spec = SourceSpec { path: p("/t/a.txt"), follow: false };
    let facts = pair(&fs, "/t/a.txt", "/t/b.txt");
    let opts = MoveOptions::default();
    let same = same_file_system(Some(Fs::dev("/t/a.txt")), Some(Fs::dev("/t")));
    let links = real_places(&fs, &spec.path, &p("/t/b.txt"));
    let planned = plan_one(
        &spec, &p("/t/b.txt"), false, &opts, &facts, &links, &p("/t"), same, (0, 0),
    )
    .unwrap();
    assert_eq!(text(&planned.dst_root), "/t/b.txt");
    assert!(matches!(planned.action, PlannedAction::Rename));
    assert!(fs.is_there("/t/a.txt") && !fs.is_there("/t/b.txt"));
    let across = same_file_system(Some(1), None);
    let links = real_places(&fs, &spec.path, &p("/shm/a.txt"));
    let planned = plan_one(
        &spec, &p("/shm"), true, &opts, &facts, &links, &p("/t"), across, (4, 1),
    )
    .unwrap();
    assert_eq!(text(&planned.dst_root), "/shm/a.txt");
    assert_eq!(planned.action, PlannedAction::CopyThenDelete { bytes: 4, files: 1 });
}

#[test]
fn cross_device_move_copies_then_deletes() {
    let mut fs = Fs::new();
    fs.write("/t/d/a.txt", b"contenu");
    fs.symlink("a.txt", "/t/d/lien");
    let stats = run_move(&mut fs, &["/t/d"], "/shm/wmv-test", &MoveOptions::default());
    assert!(stats.errors.is_empty(), "erreurs : {:?}", stats.errors);
    assert_eq!(stats.moved_across, 1);
    assert!(!fs.is_there("/t/d"));
    assert_eq!(fs.read("/shm/wmv-test/a.txt"), b"contenu");
    assert!(fs.is_link("/shm/wmv-test/lien"));
}

#[test]
fn a_failed_copy_keeps_the_source() {
    let mut fs = Fs::new();
    fs.write("/t/d/a.txt", b"contenu");
    fs.break_transfer = true;
    let stats = run_move(&mut fs, &["/t/d"], "/shm/out", &MoveOptions::default());
    assert_eq!(stats.moved_across, 0);
    assert_eq!(stats.errors, ["'/t/d' conservée suite aux erreurs de copie"]);
    assert_eq!(stats.copy.errors.len(), 1);
    assert_eq!(fs.read("/t/d/a.txt"), b"contenu");
}

#[test]
fn an_incomplete_copy_keeps_the_source() {
    let incomplete = "'/t/d' conservée : la copie n'est pas complète";
    let mut fs = Fs::new();
    fs.write("/t/d/a.txt", b"contenu");
    fs.write("/t/d/b.tmp", b"reste");
    let exclude = build_exclude_matcher(&vec![String::from("*.tmp")]).unwrap();
    let opts = MoveOptions { exclude, ..Default::default() };
    let stats = run_move(&mut fs, &["/t/d"], "/shm/out", &opts);
    assert_eq!((stats.moved_across, stats.copy.files_copied), (0, 1));
    assert_eq!(stats.errors, [incomplete]);
    assert_eq!(fs.read("/t/d/b.tmp"), b"reste");
    assert_eq!(fs.read("/shm/out/a.txt"), b"contenu");

    let mut fs = Fs::new();
    fs.write("/t/d/a.txt", b"contenu");
    fs.write("/shm/out/a.txt", b"ancien");
    let opts = MoveOptions {
        overwrite: Overwrite::NoClobber,
        dest_never_dir: true,
        ..Default::default()
    };
    let mut stats = MoveStats::default();
    let plan = plan_of(&fs, &["/t/d"], "/shm/out", &plan_config_for(&opts));
    let copied = execute(&mut fs, &plan, &copy_options_for(&opts, true), false);
    assert_eq!(copied.skipped, 1);
    assert!(!record_copy(&mut stats, &p("/t/d"), &plan, copied));
    assert_eq!(stats.errors, [incomplete]);
    assert_eq!(fs.read("/shm/out/a.txt"), b"ancien");

    let mut fs = Fs::new();
    fs.write("/t/d/a.txt", b"contenu");
    fs.add("/t/d/prise", FileKind::Other);
    let stats = run_move(&mut fs, &["/t/d"], "/shm/out", &MoveOptions::default());
    assert_eq!(stats.moved_across, 0);
    assert_eq!(stats.errors, [incomplete]);
    assert!(fs.is_there("/t/d/prise"));
}

#[test]
fn a_link_hides_no_place_inside() {
    let mut fs = Fs::new();
    fs.write("/t/a/x.txt", b"x");
    fs.symlink("/t/a", "/t/l");
    let plan = quick_plan(&fs, "/t/a", "/t/l/b", true);
    assert!(plan.entries.is_empty());
    assert_eq!(plan.errors.len(), 1);
    let plan = quick_plan(&fs, "/t/l", "/t/a/deep/er", true);
    assert!(plan.entries.is_empty());
    assert_eq!(plan.errors.len(), 1);
    assert!(quick_plan(&fs, "/t/a", "/t/b", true).errors.is_empty());

    let stats = run_move(&mut fs, &["/t/a"], "/t/l", &MoveOptions::default());
    assert_eq!(stats.errors.len(), 1);
    assert_eq!(fs.read("/t/a/x.txt"), b"x");
}

#[test]
fn attributes_are_those_of_what_is_reached() {
    let mut fs = Fs::new();
    fs.write("/t/real.txt", b"data");
    let ino = fs.lstat("/t/real.txt").unwrap();
    fs.inodes[ino].mode = 0o600;
    fs.inodes[ino].modified = Stamp { secs: 12, nanos: 34 };
    fs.inodes[ino].accessed = Stamp { secs: 56, nanos: 78 };
    fs.symlink("real.txt", "/t/lien.txt");
    let opts = CopyOptions { preserve: Preserve::all(), ..Default::default() };
    let plan = quick_plan(&fs, "/t/lien.txt", "/t/copie.txt", false);
    let stats = execute(&mut fs, &plan, &opts, false);
    assert!(stats.errors.is_empty());
    let copy = &fs.inodes[fs.lstat("/t/copie.txt").unwrap()];
    assert_eq!((copy.kind, copy.mode), (FileKind::File, 0o600));
    assert_eq!(copy.modified, Stamp { secs: 12, nanos: 34 });
    assert_eq!(copy.accessed, Stamp { secs: 56, nanos: 78 });
    assert!(fs.ops.contains(&Op::CopyXattrs { at: Loc::Tmp, follow: true }));

    let cfg = PlanConfig { deref: Deref::Never, ..plan_cfg(false) };
    let link = fs.lstat("/t/lien.txt").unwrap();
    fs.inodes[link].modified = Stamp { secs: 90, nanos: 1 };
    let plan = plan_of(&fs, &["/t/lien.txt"], "/t/lien2.txt", &cfg);
    execute(&mut fs, &plan, &opts, false);
    let twin = &fs.inodes[fs.lstat("/t/lien2.txt").unwrap()];
    assert_eq!(twin.kind, FileKind::Symlink);
    assert_eq!(twin.modified, Stamp { secs: 90, nanos: 1 });
}

#[test]
fn a_resumed_copy_copies_nothing_twice() {
    let mut fs = Fs::new();
    make_tree(&mut fs);
    fs.symlink("a.txt", "/t/d/lien");
    let opts = CopyOptions { resume: true, ..Default::default() };
    let cfg = PlanConfig { dest_never_dir: true, ..plan_cfg(true) };
    let plan = plan_of(&fs, &["/t/d"], "/t/out", &cfg);
    let first = execute(&mut fs, &plan, &opts, false);
    assert_eq!((first.files_copied, first.dirs_created, first.already_present), (3, 3, 0));
    let plan = plan_of(&fs, &["/t/d"], "/t/out", &cfg);
    fs.ops.clear();
    let before = contents(&fs);
    let again = execute(&mut fs, &plan, &opts, false);
    assert_eq!(contents(&fs), before);
    assert_eq!((again.files_copied, again.bytes_copied, again.dirs_created), (0, 0, 0));
    assert_eq!((again.already_present, again.errors.len()), (3, 0));
    assert!(fs.ops.iter().all(|op| matches!(op, Op::Look { at: Loc::Dst, .. })));
    assert_eq!(fs.ops.len(), 8);
}

#[test]
fn a_copy_goes_through_its_steps_in_order() {
    let mut fs = Fs::new();
    fs.write("/t/d/a.txt", b"aaa");
    fs.hard_link("/t/d/a.txt", "/t/d/b.txt");
    fs.write("/t/d/sub/c.txt", b"c");
    let cfg = PlanConfig { preserve_links: true, ..plan_cfg(true) };
    let plan = plan_of(&fs, &["/t/d"], "/t/out", &cfg);
    let opts = CopyOptions { preserve: Preserve::all(), jobs: 4, ..Default::default() };
    let steps = course(&plan, &opts, true);
    let names: Vec<String> = steps
        .iter()
        .map(|s| match s {
            Step::CheckRoom => String::from("room"),
            Step::Make(i) => format!("make {}", text(plan.entries[*i].destination())),
            Step::Share { work, workers } => format!("share {} {workers}", work.len()),
            Step::Link(i) => format!("link {}", text(plan.entries[*i].destination())),
            Step::Dress(i) => format!("dress {}", text(plan.entries[*i].destination())),
        })
        .collect();
    assert_eq!(
        names,
        [
            "room",
            "make /t/out",
            "make /t/out/sub",
            "share 2 2",
            "link /t/out/b.txt",
            "dress /t/out/sub",
            "dress /t/out",
        ]
    );
    let bare = course(&plan, &quiet(), false);
    assert_eq!(bare.len(), 4);
    assert!(matches!(bare[0], Step::Make(0)));
}

#[test]
fn directories_keep_their_times_although_they_are_filled() {
    let mut fs = Fs::new();
    make_tree(&mut fs);
    for (dir, secs) in [("/t/d", 11), ("/t/d/sub", 22), ("/t/d/empty", 33)] {
        let ino = fs.lstat(dir).unwrap();
        fs.inodes[ino].modified = Stamp { secs, nanos: 7 };
        fs.inodes[ino].mode = 0o700 + secs as u32;
    }
    let plan = quick_plan(&fs, "/t/d", "/t/out", true);
    let opts = CopyOptions { preserve: Preserve::all(), ..Default::default() };
    assert!(execute(&mut fs, &plan, &opts, false).errors.is_empty());
    for (dir, secs) in [("/t/out", 11), ("/t/out/sub", 22), ("/t/out/empty", 33)] {
        let node = &fs.inodes[fs.lstat(dir).unwrap()];
        assert_eq!(node.modified, Stamp { secs, nanos: 7 }, "{dir}");
        assert_eq!(node.mode, 0o700 + secs as u32, "{dir}");
    }
}

#[test]
fn a_followed_fifo_has_its_own_attributes() {
    let mut fs = Fs::new();
    let ino = fs.add("/t/tube", FileKind::Fifo);
    fs.inodes[ino].mode = 0o620;
    fs.inodes[ino].modified = Stamp { secs: 44, nanos: 5 };
    fs.symlink("/t/tube", "/t/lien");
    let plan = quick_plan(&fs, "/t/lien", "/t/copie", true);
    assert!(matches!(plan.entries[0], PlanEntry::Fifo { .. }));
    let opts = CopyOptions { preserve: Preserve::all(), ..Default::default() };
    assert!(execute(&mut fs, &plan, &opts, false).errors.is_empty());
    let copy = &fs.inodes[fs.lstat("/t/copie").unwrap()];
    assert_eq!((copy.kind, copy.mode), (FileKind::Fifo, 0o620));
    assert_eq!(copy.modified, Stamp { secs: 44, nanos: 5 });
}

#[test]
fn plans_for_two_lists_stand_side_by_side() {
    let mut fs = Fs::new();
    make_tree(&mut fs);
    fs.write("/t/x", b"xx");
    fs.hard_link("/t/x", "/t/y");
    fs.mkdirs("/t/out");
    let cfg = plan_cfg(true);
    let both = plan_of(&fs, &["/t/d", "/t/nope", "/t/x", "/t/y"], "/t/out", &cfg);
    let one = plan_of(&fs, &["/t/d", "/t/nope"], "/t/out", &cfg);
    let two = plan_of(&fs, &["/t/x", "/t/y"], "/t/out", &cfg);
    let listed = |plan: &CopyPlan| -> Vec<String> {
        plan.entries.iter().map(|e| format!("{e:?}")).collect()
    };
    assert_eq!(listed(&both), [listed(&one), listed(&two)].concat());
    assert_eq!(both.total_bytes, one.total_bytes + two.total_bytes);
    assert_eq!(both.file_count, one.file_count + two.file_count);
    assert_eq!(both.errors, one.errors);
    assert!(!both.entries.iter().any(|e| matches!(e, PlanEntry::HardLink { .. })));
    let kept = PlanConfig { preserve_links: true, ..plan_cfg(true) };
    let plan = plan_of(&fs, &["/t/x", "/t/y"], "/t/out", &kept);
    assert!(matches!(plan.entries[1], PlanEntry::HardLink { .. }));
}

#[test]
fn every_source_of_a_move_counts_once() {
    let mut fs = Fs::new();
    for name in ["/t/a", "/t/b", "/t/c"] {
        fs.write(name, b"x");
    }
    fs.write("/t/out/b", b"y");
    let opts = MoveOptions { overwrite: Overwrite::NoClobber, ..Default::default() };
    let sources = ["/t/a", "/t/b", "/t/nope", "/t/c"];
    let stats = run_move(&mut fs, &sources, "/t/out", &opts);
    assert_eq!((stats.renamed, stats.skipped, stats.moved_across), (2, 1, 0));
    assert_eq!(stats.errors.len(), 1);
    let stats = run_move(&mut fs, &["/t/b", "/t/out/a"], "/shm", &opts);
    assert_eq!((stats.renamed, stats.skipped, stats.moved_across), (0, 0, 2));
    assert!(stats.errors.is_empty());
}

/// All names but temporary ones, with kind and contents.
fn contents(fs: &Fs) -> Vec<(String, FileKind, Vec<u8>, String)> {
    fs.names
        .iter()
        .map(|(k, i)| (k.clone(), fs.inodes[*i].kind, fs.inodes[*i].data.clone(), fs.inodes[*i].target.clone()))
        .collect()
}

#[test]
fn turns_in_another_order_leave_the_same_disk() {
    let mut first: Option<Vec<(String, FileKind, Vec<u8>, String)>> = None;
    for stride in [1usize, 2, 3, 5] {
        let mut fs = Fs::new();
        make_tree(&mut fs);
        fs.symlink("a.txt", "/t/d/lien");
        fs.write("/t/out/a.txt", b"ancien");
        let plan = plan_of(
            &fs,
            &["/t/d"],
            "/t/out",
            &PlanConfig { dest_never_dir: true, ..plan_cfg(true) },
        );
        let opts = CopyOptions { verify: true, ..Default::default() };
        let order = schedule(&plan, &opts);
        let mut stats = CopyStats::default();
        for &i in &order.make {
            make_directory(&mut fs, &plan.entries[i], &mut stats);
        }
        let jobs: Vec<Job> =
            order.data.iter().map(|&i| job_for(&plan.entries[i], &opts, false)).collect();
        let mut places: Vec<Places> = order
            .data
            .iter()
            .map(|&i| Places::new(plan.entries[i].source(), plan.entries[i].destination(), "~"))
            .collect();
        let mut runs: Vec<Run> = jobs.iter().map(Run::new).collect();
        let mut k = 0;
        while runs.iter().any(|r| r.outcome().is_none()) {
            for _ in 0..stride {
                if let Some(op) = runs[k].operation(&jobs[k]) {
                    let reply = perform(&mut fs, op, &mut places[k]);
                    runs[k].reply(&jobs[k], &reply);
                }
            }
            k = (k + 1) % runs.len();
        }
        assert!(runs.iter().all(|r| r.outcome() == Some(Outcome::Copied)));
        let now = contents(&fs);
        assert_eq!(fs.read("/t/out/a.txt"), b"aaa");
        match &first {
            None => first = Some(now),
            Some(one) => assert_eq!(&now, one),
        }
    }
}

#[test]
fn sharing_the_work_keeps_the_count() {
    let entry = |i: usize| PlanEntry::File {
        src: p(&format!("/t/{i}")),
        dst: p(&format!("/t/out/{i}")),
        size: 10,
        sparse_hint: false,
    };
    let ends = [
        Outcome::Copied,
        Outcome::Skipped,
        Outcome::DirectoryInTheWay,
        Outcome::AlreadyPresent,
        Outcome::Refused,
        Outcome::Copied,
    ];
    let one = |stats: &mut CopyStats, i: usize, jobs: usize| {
        let opts = CopyOptions { jobs, ..Default::default() };
        record(stats, &entry(i), &job_for(&entry(i), &opts, false), ends[i], 10, "panne");
    };
    let mut alone = CopyStats::default();
    for i in 0..6 {
        one(&mut alone, i, 1);
    }
    let mut total = CopyStats::default();
    for mine in [[4, 0], [5, 2], [1, 3]] {
        let mut local = CopyStats::default();
        for i in mine {
            one(&mut local, i, 3);
        }
        total.merge(local);
    }
    assert_eq!(
        (total.files_copied, total.bytes_copied, total.skipped, total.already_present),
        (alone.files_copied, alone.bytes_copied, alone.skipped, alone.already_present),
    );
    assert_eq!((alone.files_copied, alone.bytes_copied), (2, 20));
    assert_ne!(total.errors, alone.errors);
    total.errors.sort();
    alone.errors.sort();
    assert_eq!(total.errors, alone.errors);
    assert_eq!(total.errors.len(), 2);
}

#[test]
fn bwlimit_slows_the_copy() {
    let mut fs = Fs::new();
    let data = vec![7u8; 512 * 1024];
    fs.write("/t/big.bin", &data);
    let opts = CopyOptions { bwlimit: Some(1024 * 1024), ..Default::default() };
    let plan = quick_plan(&fs, "/t/big.bin", "/t/copie.bin", false);
    let stats = execute(&mut fs, &plan, &opts, false);
    assert!(stats.errors.is_empty());
    assert_eq!(fs.read("/t/copie.bin").len(), 512 * 1024);
    assert!(fs.ops.contains(&Op::Transfer(Route::Buffered)));

    let mut limit = Throttle::new(opts.bwlimit.unwrap());
    let mut elapsed = 0u128;
    for block in data.chunks(buffer_size(Route::Buffered, data.len() as u64)) {
        elapsed += limit.add(block.len() as u64, elapsed).unwrap_or(0);
    }
    assert!(elapsed >= 350_000_000, "trop rapide : {elapsed:?}");
    assert_eq!(elapsed, 500_000_000);
}

#[test]
fn moves_look_save_and_rename() {
    let mut fs = Fs::new();
    old_and_new(&mut fs);
    let opts = MoveOptions { backup: Some(BackupControl::Numbered), ..Default::default() };
    run_move(&mut fs, &["/t/a.txt"], "/t/b.txt", &opts);
    assert_eq!(fs.ops.iter().filter(|op| **op == Op::Rename).count(), 1);
    assert!(fs.ops.iter().all(|op| matches!(
        op,
        Op::Look { .. } | Op::ListBackups | Op::SetAside(_) | Op::Rename
    )));
    assert_eq!(fs.read("/t/b.txt.~1~"), b"ancien");
}

#[test]
fn streams_take_their_name_whole() {
    let mut fs = Fs::new();
    let ino = fs.add("/t/dev", FileKind::Other);
    fs.inodes[ino].data = b"flux".to_vec();
    fs.write("/t/out", b"ancien");
    let opts = CopyOptions { preserve: Preserve::all(), ..Default::default() };
    let plan = quick_plan(&fs, "/t/dev", "/t/out", false);
    let stats = execute(&mut fs, &plan, &opts, false);
    assert_eq!((stats.files_copied, stats.bytes_copied), (1, 4));
    assert_eq!(fs.read("/t/out"), b"flux");
    let publish = fs.ops.iter().position(|op| *op == Op::Publish).unwrap();
    let attributes = fs.ops.iter().position(|op| matches!(op, Op::SetMode { .. })).unwrap();
    assert!(publish < attributes);
    assert!(!fs.ops.contains(&Op::RemoveFile(Loc::Dst)));

    fs.break_transfer = true;
    let stats = execute(&mut fs, &plan, &opts, false);
    assert_eq!(stats.errors.len(), 1);
    assert_eq!(fs.read("/t/out"), b"flux");
    assert_eq!(fs.temp_names(), 0);
}

#[test]
fn everything_in_a_tree_is_accounted_for() {
    let mut fs = Fs::new();
    let src = make_tree(&mut fs);
    fs.write("/t/d/x.log", b"");
    fs.add("/t/d/socket", FileKind::Other);
    fs.symlink("/t/nulle-part", "/t/d/lien");
    let cfg = PlanConfig { deref: Deref::Always, ..excluding("*.log") };
    let plan = plan_of(&fs, &[src], "/t/out", &cfg);
    let seen = observe(&fs, SourceSpec { path: p(src), follow: false }, &p("/t/out"), &cfg);
    assert_eq!((plan.errors.len(), plan.skipped.len(), plan.excluded), (1, 1, 1));
    assert_eq!(
        plan.entries.len() + plan.errors.len() + plan.skipped.len() + plan.excluded,
        1 + seen.tree.len()
    );
}
