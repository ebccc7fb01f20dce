//! Moving: by a rename where that is possible, else by a copy after which the
//! source is removed.
//!
//! A link at the destination is replaced, never written through; a copy keeps
//! every attribute; and the source goes only after a copy that is complete.

use vstd::prelude::*;
use vstd::string::*;

use crate::copy::{names_parent, CopyOptions};
use crate::engine::{Job, Outcome, Why, Work};
use crate::engine_laws::ends_move;
use crate::exclude::exclusions;
use crate::messages::{
    cannot_access, copied_note, directory_over_file, file_over_directory, identical, inside_itself,
    not_copied, not_replaced, not_saved, same_file, say_cannot_access, say_copied_note,
    say_directory_over_file, say_file_over_directory, say_not_copied, say_not_replaced,
    say_not_saved, say_same_file, say_source_incomplete, say_source_kept, say_source_not_removed,
    source_incomplete, source_kept, source_not_removed,
};
use crate::options::{
    everything_kept, nothing_kept, BackupControl, CopyMode, Deref, Overwrite, Preserve, Reflink,
    Sparse,
};
use crate::path::RawPath;
use crate::plan::{
    ends_with_slash, ensure_not_nested, inside, place_inside, real_nesting_of, CopyPlan, FileKind,
    Meta, Nesting, PlanConfig, PlanView, RealPlaces, SourceSpec,
};
use crate::stats::{nothing_done, CopyStats, StatsView};
use crate::text::texts;

verus! {

/// How sources are moved.
pub struct MoveOptions {
    pub overwrite: Overwrite,
    pub backup: Option<BackupControl>,
    pub backup_suffix: String,
    /// The destination is a name, never a directory to move into (`-T`).
    pub dest_never_dir: bool,
    pub verbose: bool,
    pub resume: bool,
    pub verify: bool,
    pub jobs: usize,
    pub bwlimit: Option<u64>,
    pub exclude: Option<globset::GlobSet>,
    /// A bar is shown while bytes are copied.
    pub show_progress: bool,
}

impl Default for MoveOptions {
    fn default() -> (r: MoveOptions)
        ensures
            r.overwrite == Overwrite::Clobber,
            r.backup is None,
            r.backup_suffix@ == "~"@,
            !r.dest_never_dir && !r.verbose && !r.resume && !r.verify && !r.show_progress,
            r.jobs == 1,
            r.bwlimit is None,
            r.exclude is None,
    {
        MoveOptions {
            overwrite: Overwrite::Clobber,
            backup: None,
            backup_suffix: "~".to_owned(),
            dest_never_dir: false,
            verbose: false,
            resume: false,
            verify: false,
            jobs: 1,
            bwlimit: None,
            exclude: None,
            show_progress: false,
        }
    }
}

/// What has been moved.
#[derive(Debug)]
pub struct MoveStats {
    /// Sources that were renamed.
    pub renamed: usize,
    /// Sources that were copied and removed.
    pub moved_across: usize,
    /// Sources that stay because the destination exists.
    pub skipped: usize,
    /// What the copies came to.
    pub copy: CopyStats,
    pub errors: Vec<String>,
}

/// The same, with numbers without a limit.
#[verifier::ext_equal]
pub struct MoveView {
    pub renamed: int,
    pub moved_across: int,
    pub skipped: int,
    pub copy: StatsView,
    pub errors: Seq<Seq<char>>,
}

impl View for MoveStats {
    type V = MoveView;

    open spec fn view(&self) -> MoveView {
        MoveView {
            renamed: self.renamed as int,
            moved_across: self.moved_across as int,
            skipped: self.skipped as int,
            copy: self.copy@,
            errors: texts(self.errors@),
        }
    }
}

impl MoveView {
    /// With one more error.
    pub open spec fn with_error(self, m: Seq<char>) -> MoveView {
        MoveView { errors: self.errors.push(m), ..self }
    }
}

impl Default for MoveStats {
    fn default() -> (r: MoveStats)
        ensures
            r@ == (MoveView {
                renamed: 0,
                moved_across: 0,
                skipped: 0,
                copy: nothing_done(),
                errors: Seq::empty(),
            }),
    {
        let r: MoveStats = MoveStats {
            renamed: 0,
            moved_across: 0,
            skipped: 0,
            copy: CopyStats::default(),
            errors: Vec::new(),
        };
        assert(texts(r.errors@) =~= Seq::empty());
        r
    }
}

impl MoveStats {
    /// Adds an error.
    pub fn push_error(&mut self, m: String)
        ensures
            final(self)@ == old(self)@.with_error(m@),
    {
        self.errors.push(m);
        assert(self@ =~= old(self)@.with_error(m@));
    }
}

/// What a move would do.
#[derive(Debug, Clone, Copy, PartialEq, Eq, Structural)]
pub enum PlannedAction {
    /// A rename.
    Rename,
    /// A copy to another file system.
    CopyThenDelete { bytes: u64, files: usize },
}

/// A move that is only looked at.
#[derive(Debug)]
pub struct PlannedMove {
    pub dst_root: RawPath,
    pub action: PlannedAction,
}

// ---------------------------------------------------------------------------
// Where a source goes, and whether it may
// ---------------------------------------------------------------------------

/// Where `src` goes.
pub open spec fn move_target(
    src: Seq<u8>,
    destination: Seq<u8>,
    dest_is_dir: bool,
    dest_never_dir: bool,
) -> Seq<u8> {
    if !dest_never_dir && (dest_is_dir || ends_with_slash(destination)) {
        inside(src, destination)
    } else {
        destination
    }
}

/// Where `src` goes: into an existing directory, or a directory to make, under
/// its own name; else to the destination itself.
pub fn resolve_dest(
    src: &RawPath,
    destination: &RawPath,
    dest_is_dir: bool,
    dest_never_dir: bool,
) -> (r: RawPath)
    ensures
        r@ == move_target(src@, destination@, dest_is_dir, dest_never_dir),
{
    if dest_never_dir {
        destination.clone()
    } else if dest_is_dir || destination.has_trailing_slash() {
        place_inside(src, destination)
    } else {
        destination.clone()
    }
}

/// What is seen of a source and of the place where it is to go. Links are not
/// followed, unless it says so.
#[derive(Debug, Clone, Copy, PartialEq, Eq, Structural)]
pub struct PairFacts {
    /// The source.
    pub src: Option<Meta>,
    /// What is at the place.
    pub dst: Option<Meta>,
    /// A directory is reached by the place, through a link or not.
    pub dst_reaches_dir: bool,
}

/// Why `src` cannot be moved to `dst`, if it cannot.
pub open spec fn move_refusal(
    src: Seq<u8>,
    dst: Seq<u8>,
    facts: PairFacts,
    places: RealPlaces,
    cwd: Seq<u8>,
) -> Option<Seq<char>> {
    match facts.src {
        None => Some(cannot_access(src)),
        Some(m) => if facts.dst matches Some(d) && (d.dev, d.ino) == (m.dev, m.ino) {
            Some(same_file(src, dst))
        } else if m.kind == FileKind::Dir {
            if facts.dst is Some && !facts.dst_reaches_dir {
                Some(directory_over_file(dst))
            } else {
                match real_nesting_of(src, dst, places, cwd) {
                    Nesting::Apart => None,
                    Nesting::Same => Some(identical(src)),
                    Nesting::Inside => Some(inside_itself(src, dst)),
                }
            }
        } else if facts.dst matches Some(d) && d.kind == FileKind::Dir {
            Some(file_over_directory(dst))
        } else {
            None
        },
    }
}

/// Why `src` cannot be moved to `dst_root`, if it cannot: it is not there, it
/// is the same file, one is a directory and the other is not, or the place
/// lies inside the source.
pub fn validate_pair(
    src: &RawPath,
    dst_root: &RawPath,
    facts: &PairFacts,
    places: &RealPlaces,
    cwd: &RawPath,
) -> (r: Option<String>)
    ensures
        match move_refusal(src@, dst_root@, *facts, *places, cwd@) {
            Some(m) => r is Some && r.unwrap()@ == m,
            None => r is None,
        },
{
    let m: Meta = match facts.src {
        Some(m) => m,
        None => {
            return Some(say_cannot_access(src));
        },
    };
    if let Some(d) = facts.dst {
        if d.dev == m.dev && d.ino == m.ino {
            return Some(say_same_file(src, dst_root));
        }
    }
    if m.kind == FileKind::Dir {
        if facts.dst.is_some() && !facts.dst_reaches_dir {
            return Some(say_directory_over_file(dst_root));
        }
        return match ensure_not_nested(src, dst_root, places, cwd) {
            Ok(()) => None,
            Err(e) => Some(e),
        };
    }
    if let Some(d) = facts.dst {
        if d.kind == FileKind::Dir {
            return Some(say_file_over_directory(dst_root));
        }
    }
    None
}

/// Whether two places are known to be on the same file system.
pub fn same_file_system(a: Option<u64>, b: Option<u64>) -> (r: bool)
    ensures
        r == (a is Some && a == b),
{
    match (a, b) {
        (Some(x), Some(y)) => x == y,
        _ => false,
    }
}

/// Looks at one source without touching it: why it cannot be moved, or where
/// it would go and how. `volume` is what a copy would come to, in bytes and
/// files.
pub fn plan_one(
    spec: &SourceSpec,
    destination: &RawPath,
    dest_is_dir: bool,
    opts: &MoveOptions,
    facts: &PairFacts,
    places: &RealPlaces,
    cwd: &RawPath,
    same_fs: bool,
    volume: (u64, usize),
) -> (r: Result<PlannedMove, String>)
    ensures
        ({
            let dst = move_target(spec.path@, destination@, dest_is_dir, opts.dest_never_dir);
            match move_refusal(spec.path@, dst, *facts, *places, cwd@) {
                Some(m) => r is Err && r->Err_0@ == m,
                None => r is Ok && r->Ok_0.dst_root@ == dst && r->Ok_0.action == if same_fs {
                    PlannedAction::Rename
                } else {
                    PlannedAction::CopyThenDelete { bytes: volume.0, files: volume.1 }
                },
            }
        }),
{
    let dst_root: RawPath = resolve_dest(
        &spec.path,
        destination,
        dest_is_dir,
        opts.dest_never_dir,
    );
    if let Some(e) = validate_pair(&spec.path, &dst_root, facts, places, cwd) {
        return Err(e);
    }
    let action: PlannedAction = if same_fs {
        PlannedAction::Rename
    } else {
        PlannedAction::CopyThenDelete { bytes: volume.0, files: volume.1 }
    };
    Ok(PlannedMove { dst_root, action })
}

// ---------------------------------------------------------------------------
// The rename
// ---------------------------------------------------------------------------

/// The job of a move: the policy, a backup, a rename.
pub open spec fn move_job_of(opts: MoveOptions, dst: Seq<u8>) -> Job {
    Job {
        work: Work::Move,
        mode: CopyMode::Copy,
        overwrite: opts.overwrite,
        preserve: nothing_kept(),
        backup: opts.backup,
        reflink: Reflink::Off,
        sparse: false,
        remove_destination: false,
        attributes_only: false,
        resume: false,
        verify: false,
        throttled: false,
        watched: false,
        size: 0,
        stray_link: false,
        has_parent: names_parent(dst),
    }
}

/// The job of a move to `dst`.
pub fn move_job(opts: &MoveOptions, dst: &RawPath) -> (r: Job)
    ensures
        r == move_job_of(*opts, dst@),
{
    let has_parent: bool = match dst.parent() {
        Some(q) => q.bytes.len() > 0,
        None => false,
    };
    Job {
        work: Work::Move,
        mode: CopyMode::Copy,
        overwrite: opts.overwrite,
        preserve: Preserve::default(),
        backup: opts.backup,
        reflink: Reflink::Off,
        sparse: false,
        remove_destination: false,
        attributes_only: false,
        resume: false,
        verify: false,
        throttled: false,
        watched: false,
        size: 0,
        stray_link: false,
        has_parent,
    }
}

/// The count after a run of a move came to `o`; `cause` is what the system
/// said of a failure. What has to be copied is not counted yet.
pub open spec fn move_counted(
    st: MoveView,
    src: Seq<u8>,
    dst: Seq<u8>,
    o: Outcome,
    cause: Seq<char>,
) -> MoveView {
    match o {
        Outcome::Renamed => MoveView { renamed: st.renamed + 1, ..st },
        Outcome::Skipped => MoveView { skipped: st.skipped + 1, ..st },
        Outcome::Refused => st.with_error(not_replaced(dst)),
        Outcome::Failed(Why::Backup) => st.with_error(not_saved(dst, cause)),
        Outcome::Failed(_) => st.with_error(not_copied(src, dst, cause)),
        _ => st,
    }
}

/// Counts what the run of a move came to.
pub fn record_move(
    stats: &mut MoveStats,
    src: &RawPath,
    dst: &RawPath,
    outcome: Outcome,
    cause: &str,
)
    requires
        old(stats).renamed < usize::MAX,
        old(stats).skipped < usize::MAX,
    ensures
        final(stats)@ == move_counted(old(stats)@, src@, dst@, outcome, cause@),
{
    match outcome {
        Outcome::Renamed => {
            stats.renamed = stats.renamed + 1;
        },
        Outcome::Skipped => {
            stats.skipped = stats.skipped + 1;
        },
        Outcome::Refused => {
            stats.push_error(say_not_replaced(dst));
        },
        Outcome::Failed(Why::Backup) => {
            stats.push_error(say_not_saved(dst, cause));
        },
        Outcome::Failed(_) => {
            stats.push_error(say_not_copied(src, dst, cause));
        },
        _ => {},
    }
}

/// What is noted of a source that was renamed.
pub fn renamed_note(src: &RawPath, dst: &RawPath) -> (r: String)
    ensures
        r@ == copied_note(src@, dst@, "renommé"@),
{
    say_copied_note(src, dst, "renommé")
}

/// What is noted of a source that was copied and removed.
pub fn moved_note(src: &RawPath, dst: &RawPath) -> (r: String)
    ensures
        r@ == copied_note(src@, dst@, "copié puis supprimé"@),
{
    say_copied_note(src, dst, "copié puis supprimé")
}

// ---------------------------------------------------------------------------
// To another file system
// ---------------------------------------------------------------------------

/// How the copy of a move is made: every attribute is kept, and a link at the
/// destination is replaced. For a single file the policy was applied before
/// the rename; in a directory it is applied file by file.
pub fn copy_options_for(opts: &MoveOptions, is_dir: bool) -> (r: CopyOptions)
    ensures
        r.mode == CopyMode::Copy,
        r.overwrite == if is_dir {
            opts.overwrite
        } else {
            Overwrite::Clobber
        },
        r.preserve == everything_kept(),
        r.backup == opts.backup,
        r.backup_suffix@ == opts.backup_suffix@,
        r.reflink == Reflink::Off,
        r.sparse == Sparse::Auto,
        r.remove_destination,
        !r.attributes_only,
        r.verbose == opts.verbose,
        r.resume == opts.resume,
        r.verify == opts.verify,
        r.jobs == opts.jobs,
        r.bwlimit == opts.bwlimit,
{
    CopyOptions {
        mode: CopyMode::Copy,
        overwrite: if is_dir {
            opts.overwrite
        } else {
            Overwrite::Clobber
        },
        preserve: Preserve::all(),
        backup: opts.backup,
        backup_suffix: opts.backup_suffix.clone(),
        reflink: Reflink::Off,
        sparse: Sparse::Auto,
        remove_destination: true,
        attributes_only: false,
        verbose: opts.verbose,
        resume: opts.resume,
        verify: opts.verify,
        jobs: opts.jobs,
        bwlimit: opts.bwlimit,
    }
}

/// How the sources of the copy of a move are read: links themselves are moved,
/// and hard links stay together.
pub fn plan_config_for(opts: &MoveOptions) -> (r: PlanConfig)
    ensures
        r.recursive,
        r.deref == Deref::Never,
        !r.parents && !r.one_file_system && !r.copy_contents,
        r.preserve_links,
        r.dest_never_dir == opts.dest_never_dir,
        r.remove_destination,
        r.exclude is Some <==> opts.exclude is Some,
        exclusions(r.exclude) == exclusions(opts.exclude),
{
    PlanConfig {
        recursive: true,
        deref: Deref::Never,
        parents: false,
        one_file_system: false,
        copy_contents: false,
        preserve_links: true,
        dest_never_dir: opts.dest_never_dir,
        remove_destination: true,
        exclude: match &opts.exclude {
            Some(set) => Some(set.clone()),
            None => None,
        },
    }
}

/// A copy went without an error, from planning to the end.
pub open spec fn without_error(plan: PlanView, copied: StatsView) -> bool {
    plan.errors.len() == 0 && copied.errors.len() == 0
}

/// A copy is complete: it went without an error, and nothing was left out of
/// it, left aside, or kept as it was at the destination.
pub open spec fn is_clean(plan: PlanView, copied: StatsView) -> bool {
    &&& without_error(plan, copied)
    &&& plan.excluded == 0
    &&& plan.skipped.len() == 0
    &&& copied.skipped == 0
}

/// The count after the copy of a move: the errors of planning are errors of
/// the move, and the source stays unless the copy is complete, which is an
/// error.
pub open spec fn across_counted(
    st: MoveView,
    src: Seq<u8>,
    plan: PlanView,
    copied: StatsView,
) -> MoveView {
    let with_copy = MoveView {
        errors: st.errors + plan.errors,
        copy: st.copy.plus(copied),
        ..st
    };
    if is_clean(plan, copied) {
        with_copy
    } else if without_error(plan, copied) {
        with_copy.with_error(source_incomplete(src))
    } else {
        with_copy.with_error(source_kept(src))
    }
}

/// Counts the copy of a move, and says whether the source may be removed: only
/// after a copy that is complete.
pub fn record_copy(stats: &mut MoveStats, src: &RawPath, plan: &CopyPlan, copied: CopyStats) -> (r:
    bool)
    requires
        old(stats)@.copy.plus(copied@).fits(),
    ensures
        r == is_clean(plan@, copied@),
        final(stats)@ == across_counted(old(stats)@, src@, plan@, copied@),
{
    let ghost st = stats@;
    let ghost all = texts(plan.errors@);
    let faultless: bool = plan.errors.len() == 0 && copied.errors.len() == 0;
    let clean: bool = faultless && plan.excluded == 0 && plan.skipped.len() == 0 && copied.skipped
        == 0;
    let mut i: usize = 0;
    assert(st.errors + all.take(0) =~= st.errors);
    while i < plan.errors.len()
        invariant
            i <= plan.errors@.len(),
            all == texts(plan.errors@),
            stats@ == (MoveView { errors: st.errors + all.take(i as int), ..st }),
        decreases plan.errors@.len() - i,
    {
        stats.push_error(plan.errors[i].clone());
        assert(st.errors + all.take(i + 1) =~= (st.errors + all.take(i as int)).push(
            all[i as int],
        ));
        i = i + 1;
    }
    assert(all.take(i as int) =~= all);
    stats.copy.merge(copied);
    if !faultless {
        stats.push_error(say_source_kept(src));
    } else if !clean {
        stats.push_error(say_source_incomplete(src));
    }
    clean
}

/// The count after the source was to be removed.
pub open spec fn removal_counted(st: MoveView, src: Seq<u8>, failure: Option<Seq<char>>) -> MoveView {
    match failure {
        None => MoveView { moved_across: st.moved_across + 1, ..st },
        Some(cause) => st.with_error(source_not_removed(src, cause)),
    }
}

/// Counts the removal of the source; `failure` is what the system said, if it
/// failed.
pub fn record_removal(stats: &mut MoveStats, src: &RawPath, failure: Option<&str>)
    requires
        old(stats).moved_across < usize::MAX,
    ensures
        final(stats)@ == removal_counted(
            old(stats)@,
            src@,
            match failure {
                Some(c) => Some(c@),
                None => None,
            },
        ),
{
    match failure {
        None => {
            stats.moved_across = stats.moved_across + 1;
        },
        Some(cause) => {
            stats.push_error(say_source_not_removed(src, cause));
        },
    }
}

/// How a source is removed.
#[derive(Debug, Clone, Copy, PartialEq, Eq, Structural)]
pub enum Removal {
    File,
    Tree,
}

/// How a source is removed: a directory with all that is in it, a link by
/// itself.
pub fn removal_of(kind: FileKind) -> (r: Removal)
    ensures
        r == if kind == FileKind::Dir {
            Removal::Tree
        } else {
            Removal::File
        },
{
    if kind == FileKind::Dir {
        Removal::Tree
    } else {
        Removal::File
    }
}

// ---------------------------------------------------------------------------
// Laws
// ---------------------------------------------------------------------------

/// A source is never lost: when its copy had an error, at any stage, or did
/// not take in everything, it is not removed, and an error says so.
pub proof fn incomplete_copy_keeps_the_source(
    st: MoveView,
    src: Seq<u8>,
    plan: PlanView,
    copied: StatsView,
)
    requires
        plan.errors.len() > 0 || copied.errors.len() > 0 || plan.excluded > 0
            || plan.skipped.len() > 0 || copied.skipped > 0,
    ensures
        !is_clean(plan, copied),
        ({
            let next = across_counted(st, src, plan, copied);
            &&& next.errors.len() > st.errors.len()
            &&& next.errors.last() == source_kept(src) || next.errors.last() == source_incomplete(
                src,
            )
            &&& next.moved_across == st.moved_across
        }),
{
}

/// Nothing is moved onto itself, into itself, through links or not, or, a file,
/// onto a directory.
pub proof fn senseless_moves_are_refused(
    src: Seq<u8>,
    dst: Seq<u8>,
    facts: PairFacts,
    places: RealPlaces,
    cwd: Seq<u8>,
)
    requires
        move_refusal(src, dst, facts, places, cwd) is None,
    ensures
        facts.src is Some,
        facts.dst matches Some(d) ==> (d.dev, d.ino) != (facts.src.unwrap().dev, facts.src.unwrap().ino),
        facts.src.unwrap().kind == FileKind::Dir ==> real_nesting_of(src, dst, places, cwd)
            == Nesting::Apart,
        facts.src.unwrap().kind != FileKind::Dir ==> !(facts.dst matches Some(d) && d.kind
            == FileKind::Dir),
        facts.src.unwrap().kind == FileKind::Dir && facts.dst is Some ==> facts.dst_reaches_dir,
{
}

/// What came of a source that was to be moved.
pub enum Came {
    /// It may not be moved, and this is why.
    Turned(Seq<char>),
    /// The run of the move ended, other than with a copy to be made.
    Ended { outcome: Outcome, cause: Seq<char> },
    /// It has to be copied, and the copy could not be planned.
    Unplanned(Seq<char>),
    /// It was copied. When the copy is complete, the source was to be removed;
    /// `failure` is what the system said, if that failed.
    Across { plan: PlanView, copied: StatsView, failure: Option<Seq<char>> },
}

impl Came {
    /// Runs of moves end like that.
    pub open spec fn wf(self) -> bool {
        self matches Came::Ended { outcome, .. } ==> ends_move(outcome) && !(outcome is CrossDevice)
    }

    /// The source did not come to its destination, which is an error.
    pub open spec fn is_error(self) -> bool {
        match self {
            Came::Turned(_) | Came::Unplanned(_) => true,
            Came::Ended { outcome, .. } => outcome is Refused || outcome is Failed,
            Came::Across { plan, copied, failure } => !is_clean(plan, copied) || failure is Some,
        }
    }
}

/// The count after a source, from what came of it.
pub open spec fn source_counted(st: MoveView, src: Seq<u8>, dst: Seq<u8>, came: Came) -> MoveView {
    match came {
        Came::Turned(m) | Came::Unplanned(m) => st.with_error(m),
        Came::Ended { outcome, cause } => move_counted(st, src, dst, outcome, cause),
        Came::Across { plan, copied, failure } => {
            let next = across_counted(st, src, plan, copied);
            if is_clean(plan, copied) {
                removal_counted(next, src, failure)
            } else {
                next
            }
        },
    }
}

/// The sources that are counted without an error.
pub open spec fn settled(st: MoveView) -> int {
    st.renamed + st.moved_across + st.skipped
}

/// Each source of a move counts once: it is renamed, moved across or skipped,
/// and nothing goes wrong, or else there is an error.
pub proof fn every_source_counts_once(st: MoveView, src: Seq<u8>, dst: Seq<u8>, came: Came)
    requires
        came.wf(),
    ensures
        ({
            let next = source_counted(st, src, dst, came);
            &&& next.renamed >= st.renamed
            &&& next.moved_across >= st.moved_across
            &&& next.skipped >= st.skipped
            &&& !came.is_error() ==> settled(next) == settled(st) + 1 && next.errors == st.errors
            &&& came.is_error() ==> settled(next) == settled(st) && next.errors.len()
                > st.errors.len()
        }),
{
    if let Came::Across { plan, copied, failure } = came {
        assert(plan.errors.len() == 0 ==> st.errors + plan.errors =~= st.errors);
    }
}

/// A source, where it was to go, and what came of it.
pub struct Moved {
    pub src: Seq<u8>,
    pub dst: Seq<u8>,
    pub came: Came,
}

/// The count after several sources, one after the other.
pub open spec fn all_counted(st: MoveView, all: Seq<Moved>) -> MoveView
    decreases all.len(),
{
    if all.len() == 0 {
        st
    } else {
        let m = all.last();
        source_counted(all_counted(st, all.drop_last()), m.src, m.dst, m.came)
    }
}

/// How many of the sources ended in an error.
pub open spec fn errors_among(all: Seq<Moved>) -> int
    decreases all.len(),
{
    if all.len() == 0 {
        0
    } else {
        errors_among(all.drop_last()) + if all.last().came.is_error() {
            1int
        } else {
            0
        }
    }
}

/// Of all sources of a move, each is renamed, moved across, skipped or an
/// error: the numbers add up, and there are no errors but theirs.
pub proof fn all_sources_count(st: MoveView, all: Seq<Moved>)
    requires
        forall|i: int| 0 <= i < all.len() ==> (#[trigger] all[i]).came.wf(),
    ensures
        ({
            let next = all_counted(st, all);
            &&& settled(next) + errors_among(all) == settled(st) + all.len()
            &&& next.errors.len() >= st.errors.len() + errors_among(all)
            &&& errors_among(all) == 0 ==> next.errors == st.errors
        }),
        errors_among(all) >= 0,
    decreases all.len(),
{
    if all.len() > 0 {
        let m = all[all.len() - 1];
        assert(m.came.wf());
        assert forall|i: int| 0 <= i < all.drop_last().len() implies (
        #[trigger] all.drop_last()[i]).came.wf() by {
            assert(all[i].came.wf());
        }
        all_sources_count(st, all.drop_last());
        every_source_counts_once(all_counted(st, all.drop_last()), m.src, m.dst, m.came);
    }
}

} // verus!
