//! How a plan is carried out: in which order, by which runs, and what is
//! counted and said.

use vstd::prelude::*;
use vstd::string::*;

use crate::engine::{Facts, Job, Outcome, Why, Work};
use crate::messages::{
    attributes_lost, copied_note, directory_attributes_lost, directory_over_file,
    file_over_directory, hard_link_over_directory, link_over_directory, linked_note, not_copied,
    not_replaced, say_attributes_lost, say_copied_note, say_directory_attributes_lost,
    say_directory_over_file, say_file_over_directory, say_hard_link_over_directory,
    say_link_over_directory, say_linked_note, say_not_copied, say_not_replaced,
    say_special_left_aside, say_trouble_with, special_left_aside, trouble_with,
};
use crate::options::{
    nothing_kept, BackupControl, CopyMode, Overwrite, Preserve, Reflink, Sparse,
};
use crate::path::{in_current_dir, in_working_dir, is_abs, parent_of, RawPath};
use crate::plan::{path_views, CopyPlan, EntryView, FileKind, PlanEntry};
use crate::plan_laws::{copied_to, is_copy_to, links_lead_back};
use crate::stats::{nothing_done, CopyStats, StatsView};
use crate::text::{human_size, size_text};

verus! {

/// How files are copied.
#[derive(Debug)]
pub struct CopyOptions {
    pub mode: CopyMode,
    pub overwrite: Overwrite,
    pub preserve: Preserve,
    pub backup: Option<BackupControl>,
    pub backup_suffix: String,
    pub reflink: Reflink,
    pub sparse: Sparse,
    pub remove_destination: bool,
    pub attributes_only: bool,
    pub verbose: bool,
    pub resume: bool,
    /// Compare checksums before a copy takes its name.
    pub verify: bool,
    /// How many copies are made at the same time.
    pub jobs: usize,
    /// How many bytes go by in a second, at most.
    pub bwlimit: Option<u64>,
}

impl Default for CopyOptions {
    fn default() -> (r: CopyOptions)
        ensures
            r.mode == CopyMode::Copy,
            r.overwrite == Overwrite::Clobber,
            r.preserve == nothing_kept(),
            r.backup is None,
            r.backup_suffix@ == "~"@,
            r.reflink == Reflink::Off,
            r.sparse == Sparse::Auto,
            !r.remove_destination && !r.attributes_only && !r.verbose && !r.resume && !r.verify,
            r.jobs == 1,
            r.bwlimit is None,
    {
        CopyOptions {
            mode: CopyMode::Copy,
            overwrite: Overwrite::Clobber,
            preserve: Preserve::default(),
            backup: None,
            backup_suffix: "~".to_owned(),
            reflink: Reflink::Off,
            sparse: Sparse::Auto,
            remove_destination: false,
            attributes_only: false,
            verbose: false,
            resume: false,
            verify: false,
            jobs: 1,
            bwlimit: None,
        }
    }
}

// ---------------------------------------------------------------------------
// The job of an entry
// ---------------------------------------------------------------------------

/// The source of an entry; of a hard link, the earlier copy.
pub open spec fn source_of(e: EntryView) -> Seq<u8> {
    match e {
        EntryView::File { src, .. } => src,
        EntryView::Symlink { src, .. } => src,
        EntryView::Dir { src, .. } => src,
        EntryView::Fifo { src, .. } => src,
        EntryView::Special { src, .. } => src,
        EntryView::HardLink { link, .. } => link,
    }
}

/// The destination of an entry.
pub open spec fn destination_of(e: EntryView) -> Seq<u8> {
    match e {
        EntryView::File { dst, .. } => dst,
        EntryView::Symlink { dst, .. } => dst,
        EntryView::Dir { dst, .. } => dst,
        EntryView::Fifo { dst, .. } => dst,
        EntryView::Special { dst, .. } => dst,
        EntryView::HardLink { dst, .. } => dst,
    }
}

/// What kind of thing an entry makes.
pub open spec fn work_of(e: EntryView) -> Work {
    match e {
        EntryView::File { .. } => Work::File,
        EntryView::Symlink { .. } => Work::Symlink,
        EntryView::Dir { .. } => Work::Dir,
        EntryView::Fifo { .. } => Work::Fifo,
        EntryView::Special { .. } => Work::Special,
        EntryView::HardLink { .. } => Work::HardLink,
    }
}

impl PlanEntry {
    /// The source; of a hard link, the earlier copy.
    pub fn source(&self) -> (r: &RawPath)
        ensures
            r@ == source_of(self@),
    {
        match self {
            PlanEntry::File { src, .. } => src,
            PlanEntry::Symlink { src, .. } => src,
            PlanEntry::Dir { src, .. } => src,
            PlanEntry::Fifo { src, .. } => src,
            PlanEntry::Special { src, .. } => src,
            PlanEntry::HardLink { link, .. } => link,
        }
    }

    /// The destination.
    pub fn destination(&self) -> (r: &RawPath)
        ensures
            r@ == destination_of(self@),
    {
        match self {
            PlanEntry::File { dst, .. } => dst,
            PlanEntry::Symlink { dst, .. } => dst,
            PlanEntry::Dir { dst, .. } => dst,
            PlanEntry::Fifo { dst, .. } => dst,
            PlanEntry::Special { dst, .. } => dst,
            PlanEntry::HardLink { dst, .. } => dst,
        }
    }

    /// What kind of thing the entry makes.
    pub fn work(&self) -> (r: Work)
        ensures
            r == work_of(self@),
    {
        match self {
            PlanEntry::File { .. } => Work::File,
            PlanEntry::Symlink { .. } => Work::Symlink,
            PlanEntry::Dir { .. } => Work::Dir,
            PlanEntry::Fifo { .. } => Work::Fifo,
            PlanEntry::Special { .. } => Work::Special,
            PlanEntry::HardLink { .. } => Work::HardLink,
        }
    }
}

/// The size of what an entry copies.
pub open spec fn size_of_entry(e: EntryView) -> u64 {
    match e {
        EntryView::File { size, .. } => size,
        _ => 0,
    }
}

/// Blocks of zeros become holes.
pub open spec fn makes_holes(e: EntryView, sparse: Sparse) -> bool {
    match sparse {
        Sparse::Always => true,
        Sparse::Never => false,
        Sparse::Auto => e matches EntryView::File { sparse_hint, .. } && sparse_hint,
    }
}

/// The destination names a directory that it is in.
pub open spec fn names_parent(dst: Seq<u8>) -> bool {
    parent_of(dst) matches Some(q) && q.len() > 0
}

/// The job that an entry asks for; `watched` tells whether somebody watches
/// the bytes go by. Nothing is saved for the attributes of a directory.
pub open spec fn job_of(e: EntryView, opts: CopyOptions, watched: bool) -> Job {
    Job {
        work: work_of(e),
        mode: opts.mode,
        overwrite: opts.overwrite,
        preserve: opts.preserve,
        backup: if e is Dir {
            None
        } else {
            opts.backup
        },
        reflink: opts.reflink,
        sparse: makes_holes(e, opts.sparse),
        remove_destination: opts.remove_destination,
        attributes_only: opts.attributes_only,
        resume: opts.resume,
        verify: opts.verify,
        throttled: opts.bwlimit is Some,
        watched,
        size: size_of_entry(e),
        stray_link: !is_abs(source_of(e)) && !in_working_dir(destination_of(e)),
        has_parent: names_parent(destination_of(e)),
    }
}

/// The job that an entry asks for.
pub fn job_for(entry: &PlanEntry, opts: &CopyOptions, watched: bool) -> (r: Job)
    ensures
        r == job_of(entry@, *opts, watched),
{
    let (size, hint): (u64, bool) = match entry {
        PlanEntry::File { size, sparse_hint, .. } => (*size, *sparse_hint),
        _ => (0, false),
    };
    let sparse: bool = match opts.sparse {
        Sparse::Always => true,
        Sparse::Never => false,
        Sparse::Auto => hint,
    };
    let has_parent: bool = match entry.destination().parent() {
        Some(q) => q.bytes.len() > 0,
        None => false,
    };
    let work: Work = entry.work();
    Job {
        work,
        mode: opts.mode,
        overwrite: opts.overwrite,
        preserve: opts.preserve,
        backup: if work == Work::Dir {
            None
        } else {
            opts.backup
        },
        reflink: opts.reflink,
        sparse,
        remove_destination: opts.remove_destination,
        attributes_only: opts.attributes_only,
        resume: opts.resume,
        verify: opts.verify,
        throttled: opts.bwlimit.is_some(),
        watched,
        size,
        stray_link: !entry.source().is_absolute() && !in_current_dir(entry.destination()),
        has_parent,
    }
}

// ---------------------------------------------------------------------------
// The order of the entries
// ---------------------------------------------------------------------------

/// When an entry is carried out. Directories come first; hard links need the
/// copies that they lead to.
#[derive(Debug, Clone, Copy, PartialEq, Eq, Structural)]
pub enum Phase {
    Directories,
    Data,
    HardLinks,
}

/// When an entry is carried out.
pub open spec fn phase_of(e: EntryView) -> Phase {
    match e {
        EntryView::Dir { .. } => Phase::Directories,
        EntryView::HardLink { .. } => Phase::HardLinks,
        _ => Phase::Data,
    }
}

/// When an entry is carried out.
pub fn phase(entry: &PlanEntry) -> (r: Phase)
    ensures
        r == phase_of(entry@),
{
    match entry {
        PlanEntry::Dir { .. } => Phase::Directories,
        PlanEntry::HardLink { .. } => Phase::HardLinks,
        _ => Phase::Data,
    }
}

/// The places of the entries of a phase, in order.
pub open spec fn places(es: Seq<EntryView>, ph: Phase) -> Seq<int>
    decreases es.len(),
{
    if es.len() == 0 {
        Seq::empty()
    } else {
        let before = places(es.drop_last(), ph);
        if phase_of(es.last()) == ph {
            before.push(es.len() - 1)
        } else {
            before
        }
    }
}

/// The places that `v` holds.
pub open spec fn as_places(v: Seq<usize>) -> Seq<int> {
    v.map_values(|i: usize| i as int)
}

/// The places of the entries of a phase, in order.
pub fn entries_of(plan: &CopyPlan, ph: Phase) -> (r: Vec<usize>)
    ensures
        as_places(r@) == places(plan@.entries, ph),
{
    let ghost es = plan@.entries;
    let mut out: Vec<usize> = Vec::new();
    let mut i: usize = 0;
    assert(es.take(0) =~= Seq::empty());
    assert(as_places(out@) =~= Seq::empty());
    while i < plan.entries.len()
        invariant
            i <= plan.entries@.len(),
            es == plan@.entries,
            as_places(out@) == places(es.take(i as int), ph),
        decreases plan.entries@.len() - i,
    {
        proof {
            assert(es.take(i + 1).drop_last() =~= es.take(i as int));
            assert(es.take(i + 1).last() == plan.entries@[i as int]@);
        }
        let ghost held = as_places(out@);
        if phase(&plan.entries[i]) == ph {
            out.push(i);
            assert(as_places(out@) =~= held.push(i as int));
        }
        i = i + 1;
    }
    assert(es.take(i as int) =~= es);
    out
}

/// How many workers share `work` entries when `jobs` are asked for.
pub open spec fn workers_for(jobs: int, work: int) -> int {
    let most = if work < 1 {
        1
    } else {
        work
    };
    if jobs < 1 {
        1
    } else if jobs > most {
        most
    } else {
        jobs
    }
}

/// How many workers share `work` entries when `jobs` are asked for: at least
/// one, and no more than there are entries.
pub fn worker_count(jobs: usize, work: usize) -> (r: usize)
    ensures
        r == workers_for(jobs as int, work as int),
{
    let most: usize = if work < 1 {
        1
    } else {
        work
    };
    if jobs < 1 {
        1
    } else if jobs > most {
        most
    } else {
        jobs
    }
}

/// In which order a plan is carried out, by the places of its entries.
#[derive(Debug)]
pub struct Schedule {
    /// Directories to make, first.
    pub make: Vec<usize>,
    /// Files, links and fifos, by several workers.
    pub data: Vec<usize>,
    pub workers: usize,
    /// Hard links, once the copies that they lead to are there.
    pub links: Vec<usize>,
    /// Directories that get their attributes, last, so that nothing written
    /// into them changes their times; inner ones before outer ones.
    pub dress: Vec<usize>,
}

fn reversed(v: &Vec<usize>) -> (r: Vec<usize>)
    ensures
        r@ == v@.reverse(),
{
    let mut out: Vec<usize> = Vec::new();
    let mut i: usize = v.len();
    while i > 0
        invariant
            i <= v@.len(),
            out@ == v@.reverse().take(v@.len() - i),
        decreases i,
    {
        i = i - 1;
        out.push(v[i]);
        assert(out@ =~= v@.reverse().take(v@.len() - i));
    }
    assert(out@ =~= v@.reverse());
    out
}

/// In which order a plan is carried out.
pub fn schedule(plan: &CopyPlan, opts: &CopyOptions) -> (r: Schedule)
    ensures
        as_places(r.make@) == places(plan@.entries, Phase::Directories),
        as_places(r.data@) == places(plan@.entries, Phase::Data),
        r.workers == workers_for(opts.jobs as int, r.data@.len() as int),
        as_places(r.links@) == places(plan@.entries, Phase::HardLinks),
        r.dress@ == if opts.preserve == nothing_kept() {
            Seq::<usize>::empty()
        } else {
            r.make@.reverse()
        },
{
    let make: Vec<usize> = entries_of(plan, Phase::Directories);
    let data: Vec<usize> = entries_of(plan, Phase::Data);
    let links: Vec<usize> = entries_of(plan, Phase::HardLinks);
    let workers: usize = worker_count(opts.jobs, data.len());
    let dress: Vec<usize> = if opts.preserve.any() {
        reversed(&make)
    } else {
        Vec::new()
    };
    Schedule { make, data, workers, links, dress }
}

/// One step of a copy; entries are named by their places in the plan.
#[derive(Debug)]
pub enum Step {
    /// See whether there is room for all bytes; without it nothing follows.
    CheckRoom,
    /// Make a directory.
    Make(usize),
    /// Make files, links and fifos, shared out among several workers. What
    /// follows waits until all are there.
    Share { work: Vec<usize>, workers: usize },
    /// Make a hard link.
    Link(usize),
    /// Give a directory its attributes.
    Dress(usize),
}

/// A step, with numbers without a limit.
#[verifier::ext_equal]
pub enum StepView {
    CheckRoom,
    Make(int),
    Share { work: Seq<int>, workers: int },
    Link(int),
    Dress(int),
}

impl View for Step {
    type V = StepView;

    open spec fn view(&self) -> StepView {
        match self {
            Step::CheckRoom => StepView::CheckRoom,
            Step::Make(i) => StepView::Make(*i as int),
            Step::Share { work, workers } => StepView::Share {
                work: as_places(work@),
                workers: *workers as int,
            },
            Step::Link(i) => StepView::Link(*i as int),
            Step::Dress(i) => StepView::Dress(*i as int),
        }
    }
}

/// The views of steps.
pub open spec fn step_views(v: Seq<Step>) -> Seq<StepView> {
    v.map_values(|s: Step| s@)
}

/// The steps that make directories.
pub open spec fn making(ps: Seq<int>) -> Seq<StepView> {
    ps.map_values(|i: int| StepView::Make(i))
}

/// The steps that make hard links.
pub open spec fn linking(ps: Seq<int>) -> Seq<StepView> {
    ps.map_values(|i: int| StepView::Link(i))
}

/// The steps that give directories their attributes.
pub open spec fn dressing(ps: Seq<int>) -> Seq<StepView> {
    ps.map_values(|i: int| StepView::Dress(i))
}

/// All steps in front of those that give directories their attributes.
pub open spec fn writing_part(es: Seq<EntryView>, jobs: int, checks: bool) -> Seq<StepView> {
    let data = places(es, Phase::Data);
    let first = if checks {
        seq![StepView::CheckRoom]
    } else {
        Seq::empty()
    };
    first + making(places(es, Phase::Directories)) + seq![
        StepView::Share { work: data, workers: workers_for(jobs, data.len() as int) },
    ] + linking(places(es, Phase::HardLinks))
}

/// The steps that give directories their attributes, inner ones before outer
/// ones.
pub open spec fn dressing_part(es: Seq<EntryView>, keeps: bool) -> Seq<StepView> {
    if keeps {
        dressing(places(es, Phase::Directories).reverse())
    } else {
        Seq::empty()
    }
}

/// The steps of the copy of `es`, in their order: the room is checked, where
/// that is asked for; then everything is made; and directories get their
/// attributes last, where any are kept.
pub open spec fn course_of(es: Seq<EntryView>, jobs: int, keeps: bool, checks: bool) -> Seq<
    StepView,
> {
    writing_part(es, jobs, checks) + dressing_part(es, keeps)
}

/// The steps of a copy, in their order. `checks` asks to see first whether
/// there is room.
pub fn course(plan: &CopyPlan, opts: &CopyOptions, checks: bool) -> (r: Vec<Step>)
    ensures
        step_views(r@) == course_of(
            plan@.entries,
            opts.jobs as int,
            opts.preserve != nothing_kept(),
            checks,
        ),
{
    let order: Schedule = schedule(plan, opts);
    let ghost es = plan@.entries;
    let ghost make = as_places(order.make@);
    let ghost links = as_places(order.links@);
    let ghost dress = as_places(order.dress@);
    let ghost share = StepView::Share {
        work: as_places(order.data@),
        workers: order.workers as int,
    };
    let mut out: Vec<Step> = Vec::new();
    if checks {
        out.push(Step::CheckRoom);
    }
    let ghost start = step_views(out@);
    proof {
        assert(start =~= if checks {
            seq![StepView::CheckRoom]
        } else {
            Seq::empty()
        });
        assert(start + making(make.take(0)) =~= start);
    }
    let mut i: usize = 0;
    while i < order.make.len()
        invariant
            i <= order.make@.len(),
            make == as_places(order.make@),
            step_views(out@) == start + making(make.take(i as int)),
        decreases order.make@.len() - i,
    {
        let ghost held = step_views(out@);
        out.push(Step::Make(order.make[i]));
        proof {
            assert(step_views(out@) =~= held.push(StepView::Make(make[i as int])));
            assert(making(make.take(i + 1)) =~= making(make.take(i as int)).push(
                StepView::Make(make[i as int]),
            ));
        }
        i = i + 1;
    }
    assert(make.take(i as int) =~= make);
    let ghost made = step_views(out@);
    out.push(Step::Share { work: order.data, workers: order.workers });
    let ghost shared = step_views(out@);
    proof {
        assert(shared =~= made + seq![share]);
        assert(shared + linking(links.take(0)) =~= shared);
    }
    let mut k: usize = 0;
    while k < order.links.len()
        invariant
            k <= order.links@.len(),
            links == as_places(order.links@),
            step_views(out@) == shared + linking(links.take(k as int)),
        decreases order.links@.len() - k,
    {
        let ghost held = step_views(out@);
        out.push(Step::Link(order.links[k]));
        proof {
            assert(step_views(out@) =~= held.push(StepView::Link(links[k as int])));
            assert(linking(links.take(k + 1)) =~= linking(links.take(k as int)).push(
                StepView::Link(links[k as int]),
            ));
        }
        k = k + 1;
    }
    assert(links.take(k as int) =~= links);
    let ghost linked = step_views(out@);
    assert(linked =~= writing_part(es, opts.jobs as int, checks));
    assert(linked + dressing(dress.take(0)) =~= linked);
    let mut d: usize = 0;
    while d < order.dress.len()
        invariant
            d <= order.dress@.len(),
            dress == as_places(order.dress@),
            step_views(out@) == linked + dressing(dress.take(d as int)),
        decreases order.dress@.len() - d,
    {
        let ghost held = step_views(out@);
        out.push(Step::Dress(order.dress[d]));
        proof {
            assert(step_views(out@) =~= held.push(StepView::Dress(dress[d as int])));
            assert(dressing(dress.take(d + 1)) =~= dressing(dress.take(d as int)).push(
                StepView::Dress(dress[d as int]),
            ));
        }
        d = d + 1;
    }
    proof {
        assert(dress.take(d as int) =~= dress);
        assert(dressing(dress) =~= dressing_part(es, opts.preserve != nothing_kept())) by {
            if opts.preserve != nothing_kept() {
                assert(dress =~= make.reverse());
            } else {
                assert(dress =~= Seq::empty());
            }
        }
    }
    out
}

pub(crate) proof fn lemma_places(es: Seq<EntryView>, ph: Phase)
    ensures
        forall|k: int|
            #![trigger places(es, ph)[k]]
            0 <= k < places(es, ph).len() ==> 0 <= places(es, ph)[k] < es.len() && phase_of(
                es[places(es, ph)[k]],
            ) == ph,
        forall|k: int, l: int|
            0 <= k < l < places(es, ph).len() ==> places(es, ph)[k] < places(es, ph)[l],
        forall|i: int|
            0 <= i < es.len() && phase_of(#[trigger] es[i]) == ph ==> places(es, ph).contains(i),
    decreases es.len(),
{
    if es.len() > 0 {
        let short = es.drop_last();
        lemma_places(short, ph);
        let before = places(short, ph);
        let now = places(es, ph);
        assert forall|k: int| 0 <= k < now.len() implies 0 <= #[trigger] now[k] < es.len()
            && phase_of(es[now[k]]) == ph by {
            if k < before.len() {
                assert(now[k] == before[k]);
                assert(short[before[k]] == es[before[k]]);
            }
        }
        assert forall|i: int| 0 <= i < es.len() && phase_of(#[trigger] es[i]) == ph implies now.contains(
            i,
        ) by {
            if i < short.len() {
                assert(short[i] == es[i]);
                assert(before.contains(i));
                let k = choose|k: int| 0 <= k < before.len() && before[k] == i;
                assert(now[k] == i);
            } else {
                assert(now[now.len() - 1] == i);
            }
        }
    }
}

/// Every entry of a plan is carried out in exactly one phase, once.
pub proof fn every_entry_has_its_turn(es: Seq<EntryView>, i: int)
    requires
        0 <= i < es.len(),
    ensures
        forall|ph: Phase| #[trigger] places(es, ph).contains(i) <==> ph == phase_of(es[i]),
        forall|ph: Phase, k: int, l: int|
            0 <= k < l < places(es, ph).len() ==> places(es, ph)[k] != places(es, ph)[l],
{
    assert forall|ph: Phase| #[trigger] places(es, ph).contains(i) implies ph == phase_of(es[i]) by {
        lemma_places(es, ph);
        let k = choose|k: int| 0 <= k < places(es, ph).len() && places(es, ph)[k] == i;
        assert(phase_of(es[places(es, ph)[k]]) == ph);
    }
    assert forall|ph: Phase| ph == phase_of(es[i]) implies #[trigger] places(es, ph).contains(i) by {
        lemma_places(es, ph);
    }
    assert forall|ph: Phase, k: int, l: int| 0 <= k < l < places(es, ph).len() implies places(
        es,
        ph,
    )[k] != places(es, ph)[l] by {
        lemma_places(es, ph);
    }
}

// ---------------------------------------------------------------------------
// Directories
// ---------------------------------------------------------------------------

/// Something that is no directory has the name of a directory to make. `link`
/// is what is there, `reached` what is reached by it.
pub open spec fn blocks_directory(link: Option<Facts>, reached: Option<Facts>) -> bool {
    link is Some && !(reached matches Some(f) && f.kind == FileKind::Dir)
}

/// Whether something else has the name of a directory to make.
pub fn is_blocked(link: &Option<Facts>, reached: &Option<Facts>) -> (r: bool)
    ensures
        r == blocks_directory(*link, *reached),
{
    let is_dir: bool = match reached {
        Some(f) => f.kind == FileKind::Dir,
        None => false,
    };
    link.is_some() && !is_dir
}

/// What was done about a directory.
#[derive(Debug)]
pub enum DirDone {
    /// Something else has its name.
    Blocked,
    /// It is there; `existed` tells whether it was before.
    Made { existed: bool },
    /// It could not be made.
    Failed(String),
}

/// The count after a directory.
pub open spec fn directory_counted(st: StatsView, dst: Seq<u8>, done: DirDone) -> StatsView {
    match done {
        DirDone::Blocked => st.with_error(directory_over_file(dst)),
        DirDone::Made { existed } => if existed {
            st
        } else {
            StatsView { dirs_created: st.dirs_created + 1, ..st }
        },
        DirDone::Failed(cause) => st.with_error(trouble_with(dst, cause@)),
    }
}

/// Counts a directory.
pub fn record_directory(stats: &mut CopyStats, dst: &RawPath, done: &DirDone)
    requires
        old(stats).dirs_created < usize::MAX,
    ensures
        final(stats)@ == directory_counted(old(stats)@, dst@, *done),
{
    match done {
        DirDone::Blocked => {
            stats.push_error(say_directory_over_file(dst));
        },
        DirDone::Made { existed } => {
            if !*existed {
                stats.dirs_created = stats.dirs_created + 1;
            }
        },
        DirDone::Failed(cause) => {
            stats.push_error(say_trouble_with(dst, cause.as_str()));
        },
    }
}

/// The warnings before anything is done: one for each path left aside.
pub open spec fn aside_warnings(skipped: Seq<Seq<u8>>) -> Seq<Seq<char>> {
    skipped.map_values(|p: Seq<u8>| special_left_aside(p))
}

/// What is counted before anything is done.
pub fn stats_before(plan: &CopyPlan) -> (r: CopyStats)
    ensures
        r@ == (StatsView { warnings: aside_warnings(plan@.skipped), ..nothing_done() }),
{
    let mut stats: CopyStats = CopyStats::default();
    let ghost all = aside_warnings(plan@.skipped);
    let mut i: usize = 0;
    assert(stats@ =~= (StatsView { warnings: all.take(0), ..nothing_done() }));
    while i < plan.skipped.len()
        invariant
            i <= plan.skipped@.len(),
            all == aside_warnings(path_views(plan.skipped@)),
            stats@ == (StatsView { warnings: all.take(i as int), ..nothing_done() }),
        decreases plan.skipped@.len() - i,
    {
        stats.push_warning(say_special_left_aside(&plan.skipped[i]));
        assert(all.take(i + 1) =~= all.take(i as int).push(all[i as int]));
        i = i + 1;
    }
    assert(all.take(i as int) =~= all);
    stats
}

// ---------------------------------------------------------------------------
// What a run came to
// ---------------------------------------------------------------------------

/// Why a run failed, in words; `cause` is what the system said.
pub open spec fn why_text(why: Why, dst: Seq<u8>, cause: Seq<char>) -> Seq<char> {
    match why {
        Why::Broken | Why::Backup => cause,
        Why::Attributes => attributes_lost(cause),
        Why::StrayLink => "les liens symboliques relatifs ne sont possibles que dans le répertoire courant"@,
        Why::LinkOverDirectory => link_over_directory(dst),
        Why::Mismatch => "vérification échouée : la copie diffère de la source"@,
    }
}

/// Why a run failed, in words; `cause` is what the system said.
pub fn say_why(why: Why, dst: &RawPath, cause: &str) -> (r: String)
    ensures
        r@ == why_text(why, dst@, cause@),
{
    match why {
        Why::Broken | Why::Backup => cause.to_owned(),
        Why::Attributes => say_attributes_lost(cause),
        Why::StrayLink => "les liens symboliques relatifs ne sont possibles que dans le répertoire courant".to_owned(),
        Why::LinkOverDirectory => say_link_over_directory(dst),
        Why::Mismatch => "vérification échouée : la copie diffère de la source".to_owned(),
    }
}

/// What is said when the destination is a directory.
pub open spec fn directory_refusal(e: EntryView) -> Seq<char> {
    if e is HardLink {
        hard_link_over_directory(destination_of(e))
    } else {
        file_over_directory(destination_of(e))
    }
}

/// What is said when a run failed. A directory is there already; only its
/// attributes can be missing.
pub open spec fn failure_text(e: EntryView, why: Why, cause: Seq<char>) -> Seq<char> {
    let dst = destination_of(e);
    if e is Dir {
        directory_attributes_lost(dst, cause)
    } else {
        not_copied(source_of(e), dst, why_text(why, dst, cause))
    }
}

/// The count after a run of `job` for `e` that put `bytes` bytes into place
/// and came to `o`; `cause` is what the system said of a failure.
pub open spec fn run_counted(
    st: StatsView,
    e: EntryView,
    job: Job,
    o: Outcome,
    bytes: u64,
    cause: Seq<char>,
) -> StatsView {
    match o {
        Outcome::Copied => if e is Dir {
            st
        } else {
            StatsView {
                files_copied: st.files_copied + 1,
                bytes_copied: st.bytes_copied + bytes,
                verified: st.verified + if job.copies_data() && job.verify {
                    1int
                } else {
                    0
                },
                ..st
            }
        },
        Outcome::Skipped => StatsView { skipped: st.skipped + 1, ..st },
        Outcome::AlreadyPresent => StatsView { already_present: st.already_present + 1, ..st },
        Outcome::Refused => st.with_error(not_replaced(destination_of(e))),
        Outcome::DirectoryInTheWay => st.with_error(directory_refusal(e)),
        Outcome::Failed(why) => st.with_error(failure_text(e, why, cause)),
        Outcome::Renamed | Outcome::CrossDevice => st,
    }
}

/// Counts what a run came to.
pub fn record(
    stats: &mut CopyStats,
    entry: &PlanEntry,
    job: &Job,
    outcome: Outcome,
    bytes: u64,
    cause: &str,
)
    requires
        old(stats)@.has_room_for(bytes),
    ensures
        final(stats)@ == run_counted(old(stats)@, entry@, *job, outcome, bytes, cause@),
{
    let dst: &RawPath = entry.destination();
    let is_dir: bool = matches!(entry, PlanEntry::Dir { .. });
    match outcome {
        Outcome::Copied => {
            if !is_dir {
                stats.files_copied = stats.files_copied + 1;
                stats.bytes_copied = stats.bytes_copied + bytes;
                if job.is_copying_data() && job.verify {
                    stats.verified = stats.verified + 1;
                }
            }
        },
        Outcome::Skipped => {
            stats.skipped = stats.skipped + 1;
        },
        Outcome::AlreadyPresent => {
            stats.already_present = stats.already_present + 1;
        },
        Outcome::Refused => {
            stats.push_error(say_not_replaced(dst));
        },
        Outcome::DirectoryInTheWay => {
            if matches!(entry, PlanEntry::HardLink { .. }) {
                stats.push_error(say_hard_link_over_directory(dst));
            } else {
                stats.push_error(say_file_over_directory(dst));
            }
        },
        Outcome::Failed(why) => {
            if is_dir {
                stats.push_error(say_directory_attributes_lost(dst, cause));
            } else {
                let text: String = say_why(why, dst, cause);
                stats.push_error(say_not_copied(entry.source(), dst, text.as_str()));
            }
        },
        Outcome::Renamed | Outcome::CrossDevice => {},
    }
}

/// What is noted of an entry that was copied.
pub open spec fn note_of(e: EntryView, job: Job) -> Option<Seq<char>> {
    let src = source_of(e);
    let dst = destination_of(e);
    match e {
        EntryView::Symlink { .. } => Some(copied_note(src, dst, "lien symbolique"@)),
        EntryView::Fifo { .. } => Some(copied_note(src, dst, "fifo"@)),
        EntryView::Special { .. } => Some(copied_note(src, dst, "contenu spécial"@)),
        EntryView::HardLink { .. } => Some(linked_note(src, dst)),
        EntryView::File { size, .. } => Some(
            copied_note(
                src,
                dst,
                if job.copies_data() && job.verify {
                    human_size(size) + ", vérifié"@
                } else {
                    human_size(size)
                },
            ),
        ),
        EntryView::Dir { .. } => None,
    }
}

/// What is noted, when asked (`-v`), of an entry whose run came to `outcome`.
pub fn log_line(entry: &PlanEntry, job: &Job, verbose: bool, outcome: Outcome) -> (r: Option<String>)
    ensures
        match r {
            Some(s) => verbose && outcome == Outcome::Copied && note_of(entry@, *job) == Some(s@),
            None => !verbose || outcome != Outcome::Copied || note_of(entry@, *job) is None,
        },
{
    if !verbose || outcome != Outcome::Copied {
        return None;
    }
    let src: &RawPath = entry.source();
    let dst: &RawPath = entry.destination();
    match entry {
        PlanEntry::Symlink { .. } => Some(say_copied_note(src, dst, "lien symbolique")),
        PlanEntry::Fifo { .. } => Some(say_copied_note(src, dst, "fifo")),
        PlanEntry::Special { .. } => Some(say_copied_note(src, dst, "contenu spécial")),
        PlanEntry::HardLink { .. } => Some(say_linked_note(src, dst)),
        PlanEntry::File { size, .. } => {
            let mut detail: String = size_text(*size);
            if job.is_copying_data() && job.verify {
                detail.append(", vérifié");
            }
            Some(say_copied_note(src, dst, detail.as_str()))
        },
        PlanEntry::Dir { .. } => None,
    }
}

/// Every entry that is not a directory is counted exactly once: as copied, as
/// there already, as kept or as an error.
pub proof fn every_run_is_counted(
    st: StatsView,
    e: EntryView,
    job: Job,
    o: Outcome,
    bytes: u64,
    cause: Seq<char>,
)
    requires
        !(e is Dir),
        !(o is Renamed),
        !(o is CrossDevice),
    ensures
        ({
            let next = run_counted(st, e, job, o, bytes, cause);
            next.files_copied + next.already_present + next.skipped + next.errors.len()
                == st.files_copied + st.already_present + st.skipped + st.errors.len() + 1
        }),
{
}

/// The copy that a hard link leads to is made in an earlier phase than the
/// link.
pub proof fn links_come_after_their_copies(es: Seq<EntryView>, i: int)
    requires
        links_lead_back(es),
        0 <= i < es.len(),
        es[i] is HardLink,
    ensures
        phase_of(es[i]) == Phase::HardLinks,
        exists|j: int|
            0 <= j < es.len() && phase_of(#[trigger] es[j]) == Phase::Data && is_copy_to(
                es[j],
                source_of(es[i]),
            ),
{
    let link = source_of(es[i]);
    assert(copied_to(es.take(i), link));
    let j = choose|j: int| 0 <= j < es.take(i).len() && is_copy_to(#[trigger] es.take(i)[j], link);
    assert(es.take(i)[j] == es[j]);
    assert(phase_of(es[j]) == Phase::Data && is_copy_to(es[j], link));
}

/// The step writes: it makes something.
pub open spec fn writes(step: StepView) -> bool {
    step is Make || step is Share || step is Link
}

/// The step makes the entry at the place `i`.
pub open spec fn makes_entry(step: StepView, i: int) -> bool {
    match step {
        StepView::Make(k) => k == i,
        StepView::Share { work, .. } => work.contains(i),
        StepView::Link(k) => k == i,
        _ => false,
    }
}

proof fn lemma_writing_part(es: Seq<EntryView>, jobs: int, checks: bool, i: int)
    requires
        0 <= i < writing_part(es, jobs, checks).len(),
    ensures
        !(writing_part(es, jobs, checks)[i] is Dress),
        writing_part(es, jobs, checks)[i] is CheckRoom ==> checks && i == 0,
        !(writing_part(es, jobs, checks)[i] is CheckRoom) ==> writes(
            writing_part(es, jobs, checks)[i],
        ),
{
}

/// Nothing is written before the room is checked, where that is asked for.
pub proof fn room_is_checked_before_any_write(
    es: Seq<EntryView>,
    jobs: int,
    keeps: bool,
    i: int,
)
    requires
        0 <= i < course_of(es, jobs, keeps, true).len(),
        writes(course_of(es, jobs, keeps, true)[i]),
    ensures
        i > 0,
        course_of(es, jobs, keeps, true)[0] is CheckRoom,
{
    let w = writing_part(es, jobs, true);
    assert(w[0] is CheckRoom);
    assert(course_of(es, jobs, keeps, true)[0] == w[0]);
}

/// Nothing is written once a directory has got its attributes: behind such a
/// step come only others like it. So what is written in a directory does not
/// change the times that it has got.
pub proof fn attributes_come_after_all_writes(
    es: Seq<EntryView>,
    jobs: int,
    keeps: bool,
    checks: bool,
    i: int,
    j: int,
)
    requires
        0 <= i < j < course_of(es, jobs, keeps, checks).len(),
        course_of(es, jobs, keeps, checks)[i] is Dress,
    ensures
        course_of(es, jobs, keeps, checks)[j] is Dress,
        !writes(course_of(es, jobs, keeps, checks)[j]),
{
    let w = writing_part(es, jobs, checks);
    if i < w.len() {
        lemma_writing_part(es, jobs, checks, i);
        assert(course_of(es, jobs, keeps, checks)[i] == w[i]);
    }
    assert(course_of(es, jobs, keeps, checks)[j] == dressing_part(es, keeps)[j - w.len()]);
}

/// Every entry is made by some step, and, where attributes are kept, every
/// directory gets them by some step.
pub proof fn the_course_leaves_nothing_out(
    es: Seq<EntryView>,
    jobs: int,
    keeps: bool,
    checks: bool,
    i: int,
)
    requires
        0 <= i < es.len(),
    ensures
        exists|k: int|
            0 <= k < course_of(es, jobs, keeps, checks).len() && makes_entry(
                #[trigger] course_of(es, jobs, keeps, checks)[k],
                i,
            ),
        keeps && es[i] is Dir ==> course_of(es, jobs, keeps, checks).contains(StepView::Dress(i)),
{
    let c = course_of(es, jobs, keeps, checks);
    let w = writing_part(es, jobs, checks);
    let first: Seq<StepView> = if checks {
        seq![StepView::CheckRoom]
    } else {
        Seq::empty()
    };
    let make = places(es, Phase::Directories);
    let links = places(es, Phase::HardLinks);
    let n = first.len() as int;
    every_entry_has_its_turn(es, i);
    match phase_of(es[i]) {
        Phase::Directories => {
            assert(make.contains(i));
            let k = choose|k: int| 0 <= k < make.len() && make[k] == i;
            assert(w[n + k] == StepView::Make(i));
            assert(makes_entry(c[n + k], i));
            if keeps {
                let r = make.len() - 1 - k;
                assert(make.reverse()[r] == i);
                assert(dressing_part(es, keeps)[r] == StepView::Dress(i));
                assert(c[w.len() + r] == StepView::Dress(i));
            }
        },
        Phase::Data => {
            assert(places(es, Phase::Data).contains(i));
            assert(makes_entry(w[n + make.len()], i));
            assert(makes_entry(c[n + make.len()], i));
        },
        Phase::HardLinks => {
            assert(links.contains(i));
            let k = choose|k: int| 0 <= k < links.len() && links[k] == i;
            assert(w[n + make.len() + 1 + k] == StepView::Link(i));
            assert(makes_entry(c[n + make.len() + 1 + k], i));
        },
    }
}

/// The steps that give attributes are those of directories, each of them once.
pub proof fn each_directory_is_dressed_once(
    es: Seq<EntryView>,
    jobs: int,
    keeps: bool,
    checks: bool,
    k: int,
    j: int,
)
    requires
        0 <= k < course_of(es, jobs, keeps, checks).len(),
        0 <= j < course_of(es, jobs, keeps, checks).len(),
        course_of(es, jobs, keeps, checks)[k] is Dress,
    ensures
        ({
            let i = course_of(es, jobs, keeps, checks)[k]->Dress_0;
            &&& 0 <= i < es.len()
            &&& es[i] is Dir
            &&& j != k ==> course_of(es, jobs, keeps, checks)[j] != StepView::Dress(i)
        }),
{
    let c = course_of(es, jobs, keeps, checks);
    let w = writing_part(es, jobs, checks);
    let make = places(es, Phase::Directories);
    let n = w.len() as int;
    if k < n {
        lemma_writing_part(es, jobs, checks, k);
        assert(c[k] == w[k]);
    }
    lemma_places(es, Phase::Directories);
    assert(c[k] == dressing_part(es, keeps)[k - n]);
    assert(make.reverse()[k - n] == make[make.len() - 1 - (k - n)]);
    if j < n {
        lemma_writing_part(es, jobs, checks, j);
        assert(c[j] == w[j]);
    } else {
        assert(c[j] == dressing_part(es, keeps)[j - n]);
        assert(make.reverse()[j - n] == make[make.len() - 1 - (j - n)]);
    }
}

} // verus!
