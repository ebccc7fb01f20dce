//! What a copy will do, decided before anything is written.
//!
//! Planning only looks at files. What was seen of them comes in as plain
//! values, and the plan is computed from these: one source that cannot be
//! copied adds a message and leaves the others alone.

use std::collections::HashMap;

use vstd::prelude::*;
use vstd::string::*;

use crate::exclude::{exclusions, is_excluded, some_glob_matches};
use crate::messages::{
    cannot_access_because, dangling_link, identical, inside_itself, needs_recursive, same_file,
    say_cannot_access_because, say_dangling_link, say_identical, say_inside_itself,
    say_needs_recursive, say_same_file, say_special_file, say_trouble_with, say_walk_error,
    special_file, trouble_with, walk_error,
};
use crate::options::Deref;
use crate::path::{
    absolute_of, absolutize, below, file_name_of, goes_through, is_abs, join_of, normal_path,
    normalized, normalized_is_injective, parts, rootless, strip_root, walked, NormalPath, RawPath,
    SLASH,
};
use crate::text::texts;

verus! {

broadcast use vstd::std_specs::hash::group_hash_axioms;

// ---------------------------------------------------------------------------
// What is seen of files
// ---------------------------------------------------------------------------

/// What a name stands for.
#[derive(Debug, Clone, Copy, PartialEq, Eq, Structural)]
pub enum FileKind {
    File,
    Dir,
    Symlink,
    Fifo,
    /// A socket or a device.
    Other,
}

/// What the system says of a file.
#[derive(Debug, Clone, Copy, PartialEq, Eq, Structural)]
pub struct Meta {
    pub kind: FileKind,
    /// The size in bytes.
    pub len: u64,
    /// The space that it takes, in units of 512 bytes.
    pub blocks: u64,
    /// The file system that it is on.
    pub dev: u64,
    /// Its number there.
    pub ino: u64,
    /// How many names it has.
    pub nlink: u64,
}

/// What is seen at the place where a file is to go.
#[derive(Debug)]
pub struct DestFacts {
    /// A symbolic link has that name.
    pub is_link: bool,
    /// Where that link leads in the end, if anywhere.
    pub target: Option<RawPath>,
    /// The regular file that is reached by that name, as its file system and
    /// its number there.
    pub file: Option<(u64, u64)>,
}

/// A source named on the command line.
#[derive(Debug)]
pub struct SourceSpec {
    pub path: RawPath,
    /// A slash at its end asks to follow the link.
    pub follow: bool,
}

/// One thing met on the walk through a tree.
#[derive(Debug)]
pub struct TreeEvent {
    /// How far below the root of the tree; what is in the root has depth one.
    pub depth: usize,
    pub what: Sighting,
}

#[derive(Debug)]
pub enum Sighting {
    /// The walk met an error.
    Unreadable(String),
    /// An entry of the tree.
    Entry {
        path: RawPath,
        kind: FileKind,
        /// What the system says of it, or the error.
        meta: Result<Meta, String>,
        /// What is seen where it is to go.
        dest: DestFacts,
    },
}

/// Where the links on the way to a source and to its destination lead.
#[derive(Debug)]
pub struct RealPlaces {
    pub source: RawPath,
    /// What is there of the way is resolved; the rest of the names follow.
    pub destination: RawPath,
}

/// What was seen of one source.
#[derive(Debug)]
pub struct Observed {
    pub spec: SourceSpec,
    pub places: RealPlaces,
    /// What the system says of it, or the error.
    pub meta: Result<Meta, String>,
    /// What is seen where it is to go.
    pub dest: DestFacts,
    /// What the walk through it met, each directory before what is in it.
    pub tree: Vec<TreeEvent>,
}

// ---------------------------------------------------------------------------
// The plan
// ---------------------------------------------------------------------------

/// One thing to do.
#[derive(Debug)]
pub enum PlanEntry {
    File { src: RawPath, dst: RawPath, size: u64, sparse_hint: bool },
    Symlink { src: RawPath, dst: RawPath },
    Dir { src: RawPath, dst: RawPath },
    /// A fifo to make anew.
    Fifo { src: RawPath, dst: RawPath },
    /// A special file that is read as a stream.
    Special { src: RawPath, dst: RawPath },
    /// A file that was met before under another name: it becomes a hard link
    /// to the copy.
    HardLink { link: RawPath, dst: RawPath },
}

/// An entry, with paths as byte strings.
#[verifier::ext_equal]
pub enum EntryView {
    File { src: Seq<u8>, dst: Seq<u8>, size: u64, sparse_hint: bool },
    Symlink { src: Seq<u8>, dst: Seq<u8> },
    Dir { src: Seq<u8>, dst: Seq<u8> },
    Fifo { src: Seq<u8>, dst: Seq<u8> },
    Special { src: Seq<u8>, dst: Seq<u8> },
    HardLink { link: Seq<u8>, dst: Seq<u8> },
}

impl View for PlanEntry {
    type V = EntryView;

    open spec fn view(&self) -> EntryView {
        match self {
            PlanEntry::File { src, dst, size, sparse_hint } => EntryView::File {
                src: src@,
                dst: dst@,
                size: *size,
                sparse_hint: *sparse_hint,
            },
            PlanEntry::Symlink { src, dst } => EntryView::Symlink { src: src@, dst: dst@ },
            PlanEntry::Dir { src, dst } => EntryView::Dir { src: src@, dst: dst@ },
            PlanEntry::Fifo { src, dst } => EntryView::Fifo { src: src@, dst: dst@ },
            PlanEntry::Special { src, dst } => EntryView::Special { src: src@, dst: dst@ },
            PlanEntry::HardLink { link, dst } => EntryView::HardLink { link: link@, dst: dst@ },
        }
    }
}

/// All that a copy will do.
#[derive(Debug)]
pub struct CopyPlan {
    pub entries: Vec<PlanEntry>,
    /// The bytes in all files to copy.
    pub total_bytes: u64,
    /// How many files there are to copy.
    pub file_count: usize,
    /// What is left aside: sockets, devices, other file systems.
    pub skipped: Vec<RawPath>,
    /// How many entries the patterns leave out.
    pub excluded: usize,
    /// What went wrong, source by source.
    pub errors: Vec<String>,
}

/// A plan, with paths as byte strings and numbers without a limit.
#[verifier::ext_equal]
pub struct PlanView {
    pub entries: Seq<EntryView>,
    pub total_bytes: int,
    pub file_count: int,
    pub skipped: Seq<Seq<u8>>,
    pub excluded: int,
    pub errors: Seq<Seq<char>>,
}

/// The views of entries.
pub open spec fn entry_views(v: Seq<PlanEntry>) -> Seq<EntryView> {
    v.map_values(|e: PlanEntry| e@)
}

/// Paths as byte strings.
pub open spec fn path_views(v: Seq<RawPath>) -> Seq<Seq<u8>> {
    v.map_values(|p: RawPath| p@)
}

impl View for CopyPlan {
    type V = PlanView;

    open spec fn view(&self) -> PlanView {
        PlanView {
            entries: entry_views(self.entries@),
            total_bytes: self.total_bytes as int,
            file_count: self.file_count as int,
            skipped: path_views(self.skipped@),
            excluded: self.excluded as int,
            errors: texts(self.errors@),
        }
    }
}

/// The plan that does nothing.
pub open spec fn empty_plan() -> PlanView {
    PlanView {
        entries: Seq::empty(),
        total_bytes: 0,
        file_count: 0,
        skipped: Seq::empty(),
        excluded: 0,
        errors: Seq::empty(),
    }
}

impl PlanView {
    /// With `e` as one more thing to do.
    pub open spec fn with_entry(self, e: EntryView) -> PlanView {
        PlanView { entries: self.entries.push(e), ..self }
    }

    /// With one more message.
    pub open spec fn with_error(self, m: Seq<char>) -> PlanView {
        PlanView { errors: self.errors.push(m), ..self }
    }

    /// With one more path left aside.
    pub open spec fn with_skipped(self, p: Seq<u8>) -> PlanView {
        PlanView { skipped: self.skipped.push(p), ..self }
    }

    /// The numbers have room in a plan.
    pub open spec fn fits(self) -> bool {
        self.total_bytes <= u64::MAX && self.file_count <= usize::MAX && self.excluded <= usize::MAX
    }
}

/// How the sources are read.
pub struct PlanConfig {
    pub recursive: bool,
    pub deref: Deref,
    pub parents: bool,
    pub one_file_system: bool,
    pub copy_contents: bool,
    pub preserve_links: bool,
    pub dest_never_dir: bool,
    pub remove_destination: bool,
    /// Patterns for what is left out, seen from the root of each source.
    pub exclude: Option<globset::GlobSet>,
}

// ---------------------------------------------------------------------------
// Where a source goes
// ---------------------------------------------------------------------------

/// The link that `spec` names, if it is one, is followed.
pub open spec fn followed(spec: SourceSpec, cfg: PlanConfig) -> bool {
    spec.follow || cfg.deref != Deref::Never
}

/// Whether the link that `spec` names, if it is one, is followed: a slash at
/// the end asks for it even under `-P`.
pub fn follows(spec: &SourceSpec, cfg: &PlanConfig) -> (r: bool)
    ensures
        r == followed(*spec, *cfg),
{
    spec.follow || cfg.deref != Deref::Never
}

/// `source` inside `destination`, under its own name when it has one.
pub open spec fn inside(source: Seq<u8>, destination: Seq<u8>) -> Seq<u8> {
    match file_name_of(source) {
        Some(name) => join_of(destination, name),
        None => destination,
    }
}

/// `source` inside `destination`, under its own name when it has one.
pub fn place_inside(source: &RawPath, destination: &RawPath) -> (r: RawPath)
    ensures
        r@ == inside(source@, destination@),
{
    match source.file_name() {
        Some(name) => {
            let n: RawPath = RawPath { bytes: name };
            destination.join(&n)
        },
        None => destination.clone(),
    }
}

/// The name ends with a slash.
pub open spec fn ends_with_slash(p: Seq<u8>) -> bool {
    p.len() > 0 && p.last() == SLASH
}

/// Where `source` goes. An existing directory, or a name that ends with a
/// slash, receives the source inside; `--parents` builds the whole path of the
/// source there.
pub open spec fn dest_root(
    source: Seq<u8>,
    destination: Seq<u8>,
    dest_is_dir: bool,
    cfg: PlanConfig,
) -> Seq<u8> {
    if cfg.parents {
        join_of(destination, rootless(source))
    } else if !cfg.dest_never_dir && (dest_is_dir || ends_with_slash(destination)) {
        inside(source, destination)
    } else {
        destination
    }
}

/// Where `source` goes.
pub fn dest_root_for(
    source: &RawPath,
    destination: &RawPath,
    dest_is_dir: bool,
    cfg: &PlanConfig,
) -> (r: RawPath)
    ensures
        r@ == dest_root(source@, destination@, dest_is_dir, *cfg),
{
    if cfg.parents {
        let below_root: RawPath = strip_root(source);
        return destination.join(&below_root);
    }
    if cfg.dest_never_dir {
        return destination.clone();
    }
    if dest_is_dir || destination.has_trailing_slash() {
        place_inside(source, destination)
    } else {
        destination.clone()
    }
}

/// Why a directory cannot be copied to a place.
#[derive(Debug, Clone, Copy, PartialEq, Eq, Structural)]
pub enum Nesting {
    Apart,
    Same,
    Inside,
}

/// How the place `dst` lies to the directory `source`, both seen from `cwd`,
/// with `.` and `..` resolved.
pub open spec fn nesting_of(source: Seq<u8>, dst: Seq<u8>, cwd: Seq<u8>) -> Nesting {
    let s = absolute_of(source, cwd);
    let d = absolute_of(dst, cwd);
    if normalized(d) == normalized(s) {
        Nesting::Same
    } else if goes_through(is_abs(s), walked(parts(s)), is_abs(d), walked(parts(d))) {
        Nesting::Inside
    } else {
        Nesting::Apart
    }
}

/// How the place `dst` lies to the directory `source`.
pub fn nesting(source: &RawPath, dst: &RawPath, cwd: &RawPath) -> (r: Nesting)
    ensures
        r == nesting_of(source@, dst@, cwd@),
{
    let s: RawPath = absolutize(source, cwd);
    let d: RawPath = absolutize(dst, cwd);
    let sn: NormalPath = normal_path(&s);
    let dn: NormalPath = normal_path(&d);
    let under: bool = dn.is_under(&sn);
    let same: bool = sn.absolute == dn.absolute && sn.names.len() == dn.names.len() && under;
    proof {
        let a = walked(parts(s@));
        let b = walked(parts(d@));
        if same {
            assert(b.take(a.len() as int) =~= b);
            assert(a =~= b);
        }
        if normalized(d@) == normalized(s@) {
            normalized_is_injective(s@, d@);
            assert(b.take(a.len() as int) =~= b);
        }
    }
    if same {
        Nesting::Same
    } else if under {
        Nesting::Inside
    } else {
        Nesting::Apart
    }
}

/// How the place `dst` lies to the directory `source`, by their names or by
/// where links on the way lead.
pub open spec fn real_nesting_of(
    source: Seq<u8>,
    dst: Seq<u8>,
    places: RealPlaces,
    cwd: Seq<u8>,
) -> Nesting {
    match nesting_of(source, dst, cwd) {
        Nesting::Apart => nesting_of(places.source@, places.destination@, cwd),
        known => known,
    }
}

/// How the place `dst` lies to the directory `source`, by their names or by
/// where links on the way lead.
pub fn real_nesting(source: &RawPath, dst: &RawPath, places: &RealPlaces, cwd: &RawPath) -> (r:
    Nesting)
    ensures
        r == real_nesting_of(source@, dst@, *places, cwd@),
{
    match nesting(source, dst, cwd) {
        Nesting::Apart => nesting(&places.source, &places.destination, cwd),
        known => known,
    }
}

/// Refuses to copy a directory onto itself or into itself, through links or
/// not.
pub fn ensure_not_nested(
    source: &RawPath,
    dst_root: &RawPath,
    places: &RealPlaces,
    cwd: &RawPath,
) -> (r: Result<(), String>)
    ensures
        match real_nesting_of(source@, dst_root@, *places, cwd@) {
            Nesting::Apart => r is Ok,
            Nesting::Same => r is Err && r->Err_0@ == identical(source@),
            Nesting::Inside => r is Err && r->Err_0@ == inside_itself(source@, dst_root@),
        },
{
    match real_nesting(source, dst_root, places, cwd) {
        Nesting::Apart => Ok(()),
        Nesting::Same => Err(say_identical(source)),
        Nesting::Inside => Err(say_inside_itself(source, dst_root)),
    }
}

/// Where a file is really written.
pub open spec fn write_through(dst: Seq<u8>, facts: DestFacts, remove_destination: bool) -> Option<
    Seq<u8>,
> {
    if remove_destination || !facts.is_link {
        Some(dst)
    } else {
        match facts.target {
            Some(t) => Some(t@),
            None => None,
        }
    }
}

/// Where a file is really written: through a link at the destination, unless
/// the destination is removed first. A link to nothing is refused.
pub fn resolve_write_through(dst: &RawPath, facts: &DestFacts, remove_destination: bool) -> (r: Result<
    RawPath,
    String,
>)
    ensures
        match write_through(dst@, *facts, remove_destination) {
            Some(p) => r is Ok && r->Ok_0@ == p,
            None => r is Err && r->Err_0@ == dangling_link(dst@),
        },
{
    if remove_destination || !facts.is_link {
        return Ok(dst.clone());
    }
    match &facts.target {
        Some(t) => Ok(t.clone()),
        None => Err(say_dangling_link(dst)),
    }
}

/// A file takes less space than its size: it has holes.
pub open spec fn has_holes(m: Meta) -> bool {
    m.len > 0 && m.blocks * 512 < m.len
}

/// Whether a file takes less space than its size.
pub fn is_sparse(m: &Meta) -> (r: bool)
    ensures
        r == has_holes(*m),
{
    m.len > 0 && (m.blocks as u128) * 512 < m.len as u128
}

// ---------------------------------------------------------------------------
// Which files were met before
// ---------------------------------------------------------------------------

/// One number for a file system and a number on it.
pub open spec fn id_key(dev: u64, ino: u64) -> u128 {
    (dev * 0x1_0000_0000_0000_0000 + ino) as u128
}

/// Different files have different keys.
pub proof fn id_key_is_injective(dev1: u64, ino1: u64, dev2: u64, ino2: u64)
    requires
        id_key(dev1, ino1) == id_key(dev2, ino2),
    ensures
        dev1 == dev2 && ino1 == ino2,
{
}

/// One number for a file system and a number on it.
fn file_key(dev: u64, ino: u64) -> (r: u128)
    ensures
        r == id_key(dev, ino),
{
    (dev as u128) * 0x1_0000_0000_0000_0000 + (ino as u128)
}

/// A plan in the making: the plan, and where the files met so far, of those
/// with several names, are copied to.
pub struct Planner {
    pub plan: CopyPlan,
    pub seen: HashMap<u128, RawPath>,
}

#[verifier::ext_equal]
pub struct PlannerView {
    pub plan: PlanView,
    pub seen: Map<u128, Seq<u8>>,
}

impl View for Planner {
    type V = PlannerView;

    open spec fn view(&self) -> PlannerView {
        PlannerView { plan: self.plan@, seen: self.seen@.map_values(|p: RawPath| p@) }
    }
}

/// Nothing planned, nothing met.
pub open spec fn fresh() -> PlannerView {
    PlannerView { plan: empty_plan(), seen: Map::empty() }
}

impl PlannerView {
    /// With `e` as one more thing to do.
    pub open spec fn with_entry(self, e: EntryView) -> PlannerView {
        PlannerView { plan: self.plan.with_entry(e), ..self }
    }

    /// With one more message.
    pub open spec fn with_error(self, m: Seq<char>) -> PlannerView {
        PlannerView { plan: self.plan.with_error(m), ..self }
    }

    /// With one more path left aside.
    pub open spec fn with_skipped(self, p: Seq<u8>) -> PlannerView {
        PlannerView { plan: self.plan.with_skipped(p), ..self }
    }

    /// With a file to copy.
    pub open spec fn with_file(self, src: Seq<u8>, dst: Seq<u8>, m: Meta) -> PlannerView {
        let e = EntryView::File { src, dst, size: m.len, sparse_hint: has_holes(m) };
        PlannerView {
            plan: PlanView {
                entries: self.plan.entries.push(e),
                total_bytes: self.plan.total_bytes + m.len,
                file_count: self.plan.file_count + 1,
                ..self.plan
            },
            ..self
        }
    }
}

/// A file goes into the plan: as a copy, or as a hard link to the copy of the
/// same file under another name. A link to nothing at the destination, and a
/// destination that is the source, are refused.
pub open spec fn file_planned(
    st: PlannerView,
    src: Seq<u8>,
    dst: Seq<u8>,
    m: Meta,
    facts: DestFacts,
    cfg: PlanConfig,
) -> PlannerView {
    match write_through(dst, facts, cfg.remove_destination) {
        None => st.with_error(dangling_link(dst)),
        Some(target) => if facts.file == Some((m.dev, m.ino)) {
            st.with_error(same_file(src, target))
        } else if cfg.preserve_links && m.nlink > 1 {
            let key = id_key(m.dev, m.ino);
            if st.seen.dom().contains(key) {
                st.with_entry(EntryView::HardLink { link: st.seen[key], dst: target })
            } else {
                PlannerView { seen: st.seen.insert(key, target), ..st }.with_file(src, target, m)
            }
        } else {
            st.with_file(src, target, m)
        },
    }
}

/// The numbers of a plan are too large for it.
#[derive(Debug, Clone, Copy, PartialEq, Eq, Structural)]
pub struct TooLarge;

impl Planner {
    /// Nothing planned yet.
    pub fn new() -> (r: Planner)
        ensures
            r@ == fresh(),
    {
        let r: Planner = Planner {
            plan: CopyPlan {
                entries: Vec::new(),
                total_bytes: 0,
                file_count: 0,
                skipped: Vec::new(),
                excluded: 0,
                errors: Vec::new(),
            },
            seen: HashMap::new(),
        };
        assert(r@ =~= fresh());
        r
    }

    fn push_entry(&mut self, e: PlanEntry)
        ensures
            final(self)@ == old(self)@.with_entry(e@),
    {
        self.plan.entries.push(e);
        assert(self@ =~= old(self)@.with_entry(e@));
    }

    fn push_error(&mut self, m: String)
        ensures
            final(self)@ == old(self)@.with_error(m@),
    {
        self.plan.errors.push(m);
        assert(self@ =~= old(self)@.with_error(m@));
    }

    fn push_skipped(&mut self, p: RawPath)
        ensures
            final(self)@ == old(self)@.with_skipped(p@),
    {
        self.plan.skipped.push(p);
        assert(self@ =~= old(self)@.with_skipped(p@));
    }

    fn push_file(&mut self, src: RawPath, dst: RawPath, m: &Meta) -> (r: Result<(), TooLarge>)
        requires
            old(self)@.plan.fits(),
        ensures
            match r {
                Ok(_) => final(self)@ == old(self)@.with_file(src@, dst@, *m)
                    && final(self)@.plan.fits(),
                Err(_) => !old(self)@.with_file(src@, dst@, *m).plan.fits(),
            },
    {
        if m.len > u64::MAX - self.plan.total_bytes || self.plan.file_count == usize::MAX {
            return Err(TooLarge);
        }
        let e: PlanEntry = PlanEntry::File { src, dst, size: m.len, sparse_hint: is_sparse(m) };
        self.plan.total_bytes = self.plan.total_bytes + m.len;
        self.plan.file_count = self.plan.file_count + 1;
        self.plan.entries.push(e);
        assert(self@ =~= old(self)@.with_file(src@, dst@, *m));
        Ok(())
    }

    /// Plans the copy of a regular file.
    pub fn add_file_entry(
        &mut self,
        src: &RawPath,
        dst: &RawPath,
        m: &Meta,
        facts: &DestFacts,
        cfg: &PlanConfig,
    ) -> (r: Result<(), TooLarge>)
        requires
            old(self)@.plan.fits(),
        ensures
            match r {
                Ok(_) => final(self)@ == file_planned(old(self)@, src@, dst@, *m, *facts, *cfg)
                    && final(self)@.plan.fits(),
                Err(_) => !file_planned(old(self)@, src@, dst@, *m, *facts, *cfg).plan.fits(),
            },
    {
        let target: RawPath = match resolve_write_through(dst, facts, cfg.remove_destination) {
            Ok(p) => p,
            Err(msg) => {
                self.push_error(msg);
                return Ok(());
            },
        };
        let same: bool = match facts.file {
            Some((ddev, dino)) => ddev == m.dev && dino == m.ino,
            None => false,
        };
        if same {
            let msg: String = say_same_file(src, &target);
            self.push_error(msg);
            return Ok(());
        }
        if cfg.preserve_links && m.nlink > 1 {
            let key: u128 = file_key(m.dev, m.ino);
            let before: Option<RawPath> = match self.seen.get(&key) {
                Some(first) => Some(first.clone()),
                None => None,
            };
            match before {
                Some(first) => {
                    self.push_entry(PlanEntry::HardLink { link: first, dst: target });
                    return Ok(());
                },
                None => {
                    let ghost st = self@;
                    let kept: RawPath = target.clone();
                    let ghost k = kept@;
                    self.seen.insert(key, kept);
                    assert(self@ =~= (PlannerView { seen: st.seen.insert(key, k), ..st }));
                },
            }
        }
        self.push_file(src.clone(), target, m)
    }
}

// ---------------------------------------------------------------------------
// Through a tree
// ---------------------------------------------------------------------------

/// The path of an entry below the root of its tree.
pub open spec fn relative(path: Seq<u8>, src_root: Seq<u8>) -> Seq<u8> {
    match below(path, src_root) {
        Some(rel) => rel,
        None => path,
    }
}

/// The path of an entry below the root of its tree.
pub fn relative_to(path: &RawPath, src_root: &RawPath) -> (r: RawPath)
    ensures
        r@ == relative(path@, src_root@),
{
    match path.strip_prefix(src_root) {
        Some(rel) => rel,
        None => path.clone(),
    }
}

/// Where an entry of a tree goes: to the same place below `dst_root`.
pub open spec fn tree_target(path: Seq<u8>, src_root: Seq<u8>, dst_root: Seq<u8>) -> Seq<u8> {
    join_of(dst_root, relative(path, src_root))
}

/// Where an entry of a tree goes.
pub fn walk_target(path: &RawPath, src_root: &RawPath, dst_root: &RawPath) -> (r: RawPath)
    ensures
        r@ == tree_target(path@, src_root@, dst_root@),
{
    let rel: RawPath = relative_to(path, src_root);
    dst_root.join(&rel)
}

/// The patterns leave the entry out.
pub open spec fn left_out(path: Seq<u8>, src_root: Seq<u8>, cfg: PlanConfig) -> bool {
    some_glob_matches(exclusions(cfg.exclude), relative(path, src_root))
}

/// A directory is known to lie on another file system than the root, and such
/// directories are left aside (`-x`).
pub open spec fn is_foreign(meta: Result<Meta, String>, root_dev: u64, cfg: PlanConfig) -> bool {
    cfg.one_file_system && meta is Ok && meta->Ok_0.dev != root_dev
}

fn foreign(meta: &Result<Meta, String>, root_dev: u64, cfg: &PlanConfig) -> (r: bool)
    ensures
        r == is_foreign(*meta, root_dev, *cfg),
{
    match meta {
        Ok(m) => cfg.one_file_system && m.dev != root_dev,
        Err(_) => false,
    }
}

/// The walk does not go into this entry.
pub open spec fn is_pruned(ev: TreeEvent, src_root: Seq<u8>, root_dev: u64, cfg: PlanConfig) -> bool {
    match ev.what {
        Sighting::Unreadable(_) => false,
        Sighting::Entry { path, kind, meta, .. } => kind == FileKind::Dir && (left_out(
            path@,
            src_root,
            cfg,
        ) || is_foreign(meta, root_dev, cfg)),
    }
}

/// Whether the walk stays out of this entry.
pub fn prunes(ev: &TreeEvent, src_root: &RawPath, root_dev: u64, cfg: &PlanConfig) -> (r: bool)
    ensures
        r == is_pruned(*ev, src_root@, root_dev, *cfg),
{
    match &ev.what {
        Sighting::Unreadable(_) => false,
        Sighting::Entry { path, kind, meta, .. } => {
            if *kind != FileKind::Dir {
                return false;
            }
            let rel: RawPath = relative_to(path, src_root);
            is_excluded(&rel, &cfg.exclude) || foreign(meta, root_dev, cfg)
        },
    }
}

/// What an entry that is neither left out nor a foreign directory adds.
pub open spec fn entry_planned(
    st: PlannerView,
    path: Seq<u8>,
    dst: Seq<u8>,
    kind: FileKind,
    meta: Result<Meta, String>,
    facts: DestFacts,
    cfg: PlanConfig,
) -> PlannerView {
    match kind {
        FileKind::Dir => st.with_entry(EntryView::Dir { src: path, dst }),
        FileKind::Symlink => st.with_entry(EntryView::Symlink { src: path, dst }),
        FileKind::File => match meta {
            Ok(m) => file_planned(st, path, dst, m, facts, cfg),
            Err(cause) => st.with_error(trouble_with(path, cause@)),
        },
        FileKind::Fifo => if cfg.copy_contents {
            st.with_entry(EntryView::Special { src: path, dst })
        } else {
            st.with_entry(EntryView::Fifo { src: path, dst })
        },
        FileKind::Other => if cfg.copy_contents {
            st.with_entry(EntryView::Special { src: path, dst })
        } else {
            st.with_skipped(path)
        },
    }
}

/// What an event adds to the plan.
pub open spec fn event_planned(
    st: PlannerView,
    ev: TreeEvent,
    src_root: Seq<u8>,
    dst_root: Seq<u8>,
    root_dev: u64,
    cfg: PlanConfig,
) -> PlannerView {
    match ev.what {
        Sighting::Unreadable(cause) => st.with_error(walk_error(cause@)),
        Sighting::Entry { path, kind, meta, dest } => if left_out(path@, src_root, cfg) {
            PlannerView { plan: PlanView { excluded: st.plan.excluded + 1, ..st.plan }, ..st }
        } else if kind == FileKind::Dir && is_foreign(meta, root_dev, cfg) {
            st.with_skipped(path@)
        } else {
            entry_planned(
                st,
                path@,
                tree_target(path@, src_root, dst_root),
                kind,
                meta,
                dest,
                cfg,
            )
        },
    }
}

/// A walk: the plan so far, and the depth of the directory that the walk
/// stays out of.
#[verifier::ext_equal]
pub struct WalkView {
    pub planner: PlannerView,
    pub pruned: Option<usize>,
}

/// The event lies below the directory that the walk stays out of.
pub open spec fn is_hidden(pruned: Option<usize>, ev: TreeEvent) -> bool {
    match pruned {
        Some(d) => ev.depth > d,
        None => false,
    }
}

/// The walk after one more event.
pub open spec fn visited(
    w: WalkView,
    ev: TreeEvent,
    src_root: Seq<u8>,
    dst_root: Seq<u8>,
    root_dev: u64,
    cfg: PlanConfig,
) -> WalkView {
    if is_hidden(w.pruned, ev) {
        w
    } else {
        WalkView {
            planner: event_planned(w.planner, ev, src_root, dst_root, root_dev, cfg),
            pruned: if is_pruned(ev, src_root, root_dev, cfg) {
                Some(ev.depth)
            } else {
                None
            },
        }
    }
}

/// The walk after all of `evs`.
pub open spec fn walked_through(
    st: PlannerView,
    evs: Seq<TreeEvent>,
    src_root: Seq<u8>,
    dst_root: Seq<u8>,
    root_dev: u64,
    cfg: PlanConfig,
) -> WalkView
    decreases evs.len(),
{
    if evs.len() == 0 {
        WalkView { planner: st, pruned: None }
    } else {
        visited(
            walked_through(st, evs.drop_last(), src_root, dst_root, root_dev, cfg),
            evs.last(),
            src_root,
            dst_root,
            root_dev,
            cfg,
        )
    }
}

/// A tree goes into the plan: its root, then what the walk meets.
pub open spec fn tree_planned(
    st: PlannerView,
    evs: Seq<TreeEvent>,
    src_root: Seq<u8>,
    dst_root: Seq<u8>,
    root_dev: u64,
    cfg: PlanConfig,
) -> PlannerView {
    walked_through(
        st.with_entry(EntryView::Dir { src: src_root, dst: dst_root }),
        evs,
        src_root,
        dst_root,
        root_dev,
        cfg,
    ).planner
}

// ---------------------------------------------------------------------------
// Sources
// ---------------------------------------------------------------------------

/// A source goes into the plan, or a message that says why it does not.
pub open spec fn source_planned(
    st: PlannerView,
    o: Observed,
    destination: Seq<u8>,
    dest_is_dir: bool,
    cwd: Seq<u8>,
    cfg: PlanConfig,
) -> PlannerView {
    let src = o.spec.path@;
    let root = dest_root(src, destination, dest_is_dir, cfg);
    match o.meta {
        Err(cause) => st.with_error(cannot_access_because(src, cause@)),
        Ok(m) => match m.kind {
            FileKind::Dir => if !cfg.recursive {
                st.with_error(needs_recursive(src))
            } else {
                match real_nesting_of(src, root, o.places, cwd) {
                    Nesting::Same => st.with_error(identical(src)),
                    Nesting::Inside => st.with_error(inside_itself(src, root)),
                    Nesting::Apart => tree_planned(st, o.tree@, src, root, m.dev, cfg),
                }
            },
            FileKind::File => file_planned(st, src, root, m, o.dest, cfg),
            _ => if m.kind == FileKind::Symlink && !followed(o.spec, cfg) {
                st.with_entry(EntryView::Symlink { src, dst: root })
            } else if m.kind == FileKind::Fifo && cfg.recursive && !cfg.copy_contents {
                st.with_entry(EntryView::Fifo { src, dst: root })
            } else if !cfg.recursive || cfg.copy_contents {
                st.with_entry(EntryView::Special { src, dst: root })
            } else {
                st.with_error(special_file(src))
            },
        },
    }
}

/// All sources, one after the other.
pub open spec fn sources_planned(
    obs: Seq<Observed>,
    destination: Seq<u8>,
    dest_is_dir: bool,
    cwd: Seq<u8>,
    cfg: PlanConfig,
) -> PlannerView
    decreases obs.len(),
{
    if obs.len() == 0 {
        fresh()
    } else {
        source_planned(
            sources_planned(obs.drop_last(), destination, dest_is_dir, cwd, cfg),
            obs.last(),
            destination,
            dest_is_dir,
            cwd,
            cfg,
        )
    }
}

/// The numbers of `b` are no smaller than those of `a`.
pub open spec fn no_smaller(a: PlannerView, b: PlannerView) -> bool {
    &&& a.plan.total_bytes <= b.plan.total_bytes
    &&& a.plan.file_count <= b.plan.file_count
    &&& a.plan.excluded <= b.plan.excluded
}

proof fn lemma_walk_grows(
    st: PlannerView,
    evs: Seq<TreeEvent>,
    i: int,
    src_root: Seq<u8>,
    dst_root: Seq<u8>,
    root_dev: u64,
    cfg: PlanConfig,
)
    requires
        0 <= i <= evs.len(),
    ensures
        no_smaller(
            walked_through(st, evs.take(i), src_root, dst_root, root_dev, cfg).planner,
            walked_through(st, evs, src_root, dst_root, root_dev, cfg).planner,
        ),
        no_smaller(st, walked_through(st, evs, src_root, dst_root, root_dev, cfg).planner),
    decreases evs.len(),
{
    if i < evs.len() {
        lemma_walk_grows(st, evs.drop_last(), i, src_root, dst_root, root_dev, cfg);
        assert(evs.drop_last().take(i) =~= evs.take(i));
    } else {
        assert(evs.take(i) =~= evs);
        if evs.len() > 0 {
            lemma_walk_grows(st, evs.drop_last(), i - 1, src_root, dst_root, root_dev, cfg);
        }
    }
}

proof fn lemma_source_grows(
    st: PlannerView,
    o: Observed,
    destination: Seq<u8>,
    dest_is_dir: bool,
    cwd: Seq<u8>,
    cfg: PlanConfig,
)
    ensures
        no_smaller(st, source_planned(st, o, destination, dest_is_dir, cwd, cfg)),
{
    if o.meta is Ok && o.meta->Ok_0.kind == FileKind::Dir {
        let src = o.spec.path@;
        let root = dest_root(src, destination, dest_is_dir, cfg);
        lemma_walk_grows(
            st.with_entry(EntryView::Dir { src, dst: root }),
            o.tree@,
            0,
            src,
            root,
            o.meta->Ok_0.dev,
            cfg,
        );
    }
}

proof fn lemma_sources_grow(
    obs: Seq<Observed>,
    i: int,
    destination: Seq<u8>,
    dest_is_dir: bool,
    cwd: Seq<u8>,
    cfg: PlanConfig,
)
    requires
        0 <= i <= obs.len(),
    ensures
        no_smaller(
            sources_planned(obs.take(i), destination, dest_is_dir, cwd, cfg),
            sources_planned(obs, destination, dest_is_dir, cwd, cfg),
        ),
    decreases obs.len(),
{
    if i < obs.len() {
        lemma_sources_grow(obs.drop_last(), i, destination, dest_is_dir, cwd, cfg);
        assert(obs.drop_last().take(i) =~= obs.take(i));
        lemma_source_grows(
            sources_planned(obs.drop_last(), destination, dest_is_dir, cwd, cfg),
            obs.last(),
            destination,
            dest_is_dir,
            cwd,
            cfg,
        );
    } else {
        assert(obs.take(i) =~= obs);
    }
}

impl Planner {
    /// Plans an entry of a tree that is neither left out nor foreign.
    fn add_entry(
        &mut self,
        path: &RawPath,
        dst: RawPath,
        kind: FileKind,
        meta: &Result<Meta, String>,
        facts: &DestFacts,
        cfg: &PlanConfig,
    ) -> (r: Result<(), TooLarge>)
        requires
            old(self)@.plan.fits(),
        ensures
            match r {
                Ok(_) => final(self)@ == entry_planned(
                    old(self)@,
                    path@,
                    dst@,
                    kind,
                    *meta,
                    *facts,
                    *cfg,
                ) && final(self)@.plan.fits(),
                Err(_) => !entry_planned(
                    old(self)@,
                    path@,
                    dst@,
                    kind,
                    *meta,
                    *facts,
                    *cfg,
                ).plan.fits(),
            },
    {
        match kind {
            FileKind::Dir => {
                self.push_entry(PlanEntry::Dir { src: path.clone(), dst });
            },
            FileKind::Symlink => {
                self.push_entry(PlanEntry::Symlink { src: path.clone(), dst });
            },
            FileKind::File => match meta {
                Ok(m) => {
                    return self.add_file_entry(path, &dst, m, facts, cfg);
                },
                Err(cause) => {
                    self.push_error(say_trouble_with(path, cause.as_str()));
                },
            },
            FileKind::Fifo => {
                if cfg.copy_contents {
                    self.push_entry(PlanEntry::Special { src: path.clone(), dst });
                } else {
                    self.push_entry(PlanEntry::Fifo { src: path.clone(), dst });
                }
            },
            FileKind::Other => {
                if cfg.copy_contents {
                    self.push_entry(PlanEntry::Special { src: path.clone(), dst });
                } else {
                    self.push_skipped(path.clone());
                }
            },
        }
        Ok(())
    }

    /// Plans what one event of a walk asks for.
    fn add_event(
        &mut self,
        ev: &TreeEvent,
        src_root: &RawPath,
        dst_root: &RawPath,
        root_dev: u64,
        cfg: &PlanConfig,
    ) -> (r: Result<(), TooLarge>)
        requires
            old(self)@.plan.fits(),
        ensures
            match r {
                Ok(_) => final(self)@ == event_planned(
                    old(self)@,
                    *ev,
                    src_root@,
                    dst_root@,
                    root_dev,
                    *cfg,
                ) && final(self)@.plan.fits(),
                Err(_) => !event_planned(
                    old(self)@,
                    *ev,
                    src_root@,
                    dst_root@,
                    root_dev,
                    *cfg,
                ).plan.fits(),
            },
    {
        match &ev.what {
            Sighting::Unreadable(cause) => {
                self.push_error(say_walk_error(cause.as_str()));
                Ok(())
            },
            Sighting::Entry { path, kind, meta, dest } => {
                let rel: RawPath = relative_to(path, src_root);
                if is_excluded(&rel, &cfg.exclude) {
                    if self.plan.excluded == usize::MAX {
                        return Err(TooLarge);
                    }
                    self.plan.excluded = self.plan.excluded + 1;
                    return Ok(());
                }
                if *kind == FileKind::Dir && foreign(meta, root_dev, cfg) {
                    self.push_skipped(path.clone());
                    return Ok(());
                }
                let dst: RawPath = dst_root.join(&rel);
                self.add_entry(path, dst, *kind, meta, dest, cfg)
            },
        }
    }

    /// Plans a tree: its root, so that an empty directory is kept, then what
    /// the walk through it met.
    pub fn walk_source(
        &mut self,
        evs: &Vec<TreeEvent>,
        src_root: &RawPath,
        dst_root: &RawPath,
        root_dev: u64,
        cfg: &PlanConfig,
    ) -> (r: Result<(), TooLarge>)
        requires
            old(self)@.plan.fits(),
        ensures
            match r {
                Ok(_) => final(self)@ == tree_planned(
                    old(self)@,
                    evs@,
                    src_root@,
                    dst_root@,
                    root_dev,
                    *cfg,
                ) && final(self)@.plan.fits(),
                Err(_) => !tree_planned(
                    old(self)@,
                    evs@,
                    src_root@,
                    dst_root@,
                    root_dev,
                    *cfg,
                ).plan.fits(),
            },
    {
        self.push_entry(PlanEntry::Dir { src: src_root.clone(), dst: dst_root.clone() });
        let ghost st = self@;
        let mut pruned: Option<usize> = None;
        let mut i: usize = 0;
        assert(evs@.take(0) =~= Seq::empty());
        while i < evs.len()
            invariant
                i <= evs@.len(),
                self@.plan.fits(),
                st == old(self)@.with_entry(EntryView::Dir { src: src_root@, dst: dst_root@ }),
                (WalkView { planner: self@, pruned }) == walked_through(
                    st,
                    evs@.take(i as int),
                    src_root@,
                    dst_root@,
                    root_dev,
                    *cfg,
                ),
            decreases evs@.len() - i,
        {
            let ev: &TreeEvent = &evs[i];
            proof {
                assert(evs@.take(i + 1).drop_last() =~= evs@.take(i as int));
                assert(evs@.take(i + 1).last() == *ev);
                lemma_walk_grows(st, evs@, i + 1, src_root@, dst_root@, root_dev, *cfg);
            }
            let hidden: bool = match pruned {
                Some(d) => ev.depth > d,
                None => false,
            };
            if !hidden {
                match self.add_event(ev, src_root, dst_root, root_dev, cfg) {
                    Ok(()) => {},
                    Err(e) => {
                        return Err(e);
                    },
                }
                pruned = if prunes(ev, src_root, root_dev, cfg) {
                    Some(ev.depth)
                } else {
                    None
                };
            }
            i = i + 1;
        }
        assert(evs@.take(i as int) =~= evs@);
        Ok(())
    }

    /// Plans one source, or notes why it is not copied.
    pub fn plan_one_source(
        &mut self,
        o: &Observed,
        destination: &RawPath,
        dest_is_dir: bool,
        cwd: &RawPath,
        cfg: &PlanConfig,
    ) -> (r: Result<(), TooLarge>)
        requires
            old(self)@.plan.fits(),
        ensures
            match r {
                Ok(_) => final(self)@ == source_planned(
                    old(self)@,
                    *o,
                    destination@,
                    dest_is_dir,
                    cwd@,
                    *cfg,
                ) && final(self)@.plan.fits(),
                Err(_) => !source_planned(
                    old(self)@,
                    *o,
                    destination@,
                    dest_is_dir,
                    cwd@,
                    *cfg,
                ).plan.fits(),
            },
    {
        let src: &RawPath = &o.spec.path;
        let m: &Meta = match &o.meta {
            Ok(m) => m,
            Err(cause) => {
                self.push_error(say_cannot_access_because(src, cause.as_str()));
                return Ok(());
            },
        };
        let root: RawPath = dest_root_for(src, destination, dest_is_dir, cfg);
        match m.kind {
            FileKind::Dir => {
                if !cfg.recursive {
                    self.push_error(say_needs_recursive(src));
                    return Ok(());
                }
                match ensure_not_nested(src, &root, &o.places, cwd) {
                    Ok(()) => self.walk_source(&o.tree, src, &root, m.dev, cfg),
                    Err(msg) => {
                        self.push_error(msg);
                        Ok(())
                    },
                }
            },
            FileKind::File => self.add_file_entry(src, &root, m, &o.dest, cfg),
            _ => {
                if m.kind == FileKind::Symlink && !follows(&o.spec, cfg) {
                    self.push_entry(PlanEntry::Symlink { src: src.clone(), dst: root });
                } else if m.kind == FileKind::Fifo && cfg.recursive && !cfg.copy_contents {
                    self.push_entry(PlanEntry::Fifo { src: src.clone(), dst: root });
                } else if !cfg.recursive || cfg.copy_contents {
                    self.push_entry(PlanEntry::Special { src: src.clone(), dst: root });
                } else {
                    self.push_error(say_special_file(src));
                }
                Ok(())
            },
        }
    }
}

/// Plans the copy of all sources from what was seen of them.
pub fn build_plan(
    obs: &Vec<Observed>,
    destination: &RawPath,
    dest_is_dir: bool,
    cwd: &RawPath,
    cfg: &PlanConfig,
) -> (r: Result<CopyPlan, TooLarge>)
    ensures
        match r {
            Ok(plan) => plan@ == sources_planned(
                obs@,
                destination@,
                dest_is_dir,
                cwd@,
                *cfg,
            ).plan && plan@.fits(),
            Err(_) => !sources_planned(obs@, destination@, dest_is_dir, cwd@, *cfg).plan.fits(),
        },
{
    let mut p: Planner = Planner::new();
    let mut i: usize = 0;
    assert(obs@.take(0) =~= Seq::empty());
    while i < obs.len()
        invariant
            i <= obs@.len(),
            p@.plan.fits(),
            p@ == sources_planned(
                obs@.take(i as int),
                destination@,
                dest_is_dir,
                cwd@,
                *cfg,
            ),
        decreases obs@.len() - i,
    {
        proof {
            assert(obs@.take(i + 1).drop_last() =~= obs@.take(i as int));
            lemma_sources_grow(obs@, i + 1, destination@, dest_is_dir, cwd@, *cfg);
        }
        match p.plan_one_source(&obs[i], destination, dest_is_dir, cwd, cfg) {
            Ok(()) => {},
            Err(e) => {
                return Err(e);
            },
        }
        i = i + 1;
    }
    assert(obs@.take(i as int) =~= obs@);
    Ok(p.plan)
}

} // verus!
