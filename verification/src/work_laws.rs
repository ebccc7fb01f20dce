//! What is carried out, in which order, and what is counted, entry by entry.

use vstd::prelude::*;

use crate::cli::{jobs_of, Config};
use crate::copy::{
    aside_warnings, blocks_directory, course_of, destination_of, directory_counted, dressing_part,
    job_of, lemma_places, note_of, places, run_counted, source_of, workers_for, writing_part,
    CopyOptions, DirDone, Phase, StepView,
};
use crate::engine::{Facts, Job, Outcome, Work};
use crate::options::{BackupControl, CopyMode, Overwrite, Sparse};
use crate::path::{
    dot, is_abs, lemma_no_parts, lemma_slash_at_end, lemma_spans_ok, lemma_take_parts, parent_of,
    parts, spans, SLASH,
};
use crate::plan::{EntryView, FileKind};
use crate::run::{ancestors_of, first_existing, top_of};
use crate::stats::StatsView;
use crate::text::shown;

verus! {

// ---------------------------------------------------------------------------
// The job of an entry
// ---------------------------------------------------------------------------

/// Every entry becomes a job of its own kind, from its source to its
/// destination.
pub proof fn entries_become_jobs_of_their_kind(e: EntryView, opts: CopyOptions, watched: bool)
    ensures
        ({
            let work = job_of(e, opts, watched).work;
            match e {
                EntryView::File { src, dst, size, .. } => work == Work::File && source_of(e) == src
                    && destination_of(e) == dst && job_of(e, opts, watched).size == size,
                EntryView::Symlink { src, dst } => work == Work::Symlink && source_of(e) == src
                    && destination_of(e) == dst,
                EntryView::Dir { src, dst } => work == Work::Dir && source_of(e) == src
                    && destination_of(e) == dst,
                EntryView::Fifo { src, dst } => work == Work::Fifo && source_of(e) == src
                    && destination_of(e) == dst,
                EntryView::Special { src, dst } => work == Work::Special && source_of(e) == src
                    && destination_of(e) == dst,
                EntryView::HardLink { link, dst } => work == Work::HardLink && source_of(e) == link
                    && destination_of(e) == dst,
            }
        }),
{
}

/// A job keeps to the options: the policy, the attributes, the kind of copy and
/// the checks are those asked for; nothing is saved for a directory; and a limit
/// slows it down.
pub proof fn jobs_keep_to_the_options(e: EntryView, opts: CopyOptions, watched: bool)
    ensures
        ({
            let job = job_of(e, opts, watched);
            let saves = opts.backup matches Some(c) && c != BackupControl::Off;
            &&& job.mode == opts.mode
            &&& job.overwrite == opts.overwrite
            &&& job.preserve.mode == opts.preserve.mode
            &&& job.preserve.ownership == opts.preserve.ownership
            &&& job.preserve.timestamps == opts.preserve.timestamps
            &&& job.preserve.xattr == opts.preserve.xattr
            &&& job.reflink == opts.reflink
            &&& job.remove_destination == opts.remove_destination
            &&& job.attributes_only == opts.attributes_only
            &&& job.resume == opts.resume
            &&& job.verify == opts.verify
            &&& job.watched == watched
            &&& job.throttled <==> opts.bwlimit is Some
            &&& !(e is Dir) && saves ==> job.backup == opts.backup
            &&& e is Dir || !saves ==> (job.backup matches Some(c) ==> c == BackupControl::Off)
        }),
{
}

/// Zeros become holes when that is asked for, never when it is forbidden, and
/// otherwise where the source has holes.
pub proof fn holes_are_made_where_there_are_some(e: EntryView, opts: CopyOptions, watched: bool)
    ensures
        opts.sparse == Sparse::Always ==> job_of(e, opts, watched).sparse,
        opts.sparse == Sparse::Never ==> !job_of(e, opts, watched).sparse,
        opts.sparse == Sparse::Auto ==> (job_of(e, opts, watched).sparse <==> match e {
            EntryView::File { sparse_hint, .. } => sparse_hint,
            _ => false,
        }),
{
}

/// A path with one part lies at the root or where the process works; one with
/// more lies in the directory that all of its parts but the last lead to.
pub proof fn parents_have_all_parts_but_the_last(p: Seq<u8>)
    requires
        parts(p).len() > 0,
    ensures
        parent_of(p) is Some,
        parts(parent_of(p).unwrap()) == parts(p).drop_last(),
        is_abs(parent_of(p).unwrap()) == is_abs(p),
{
    assert(spans(p).len() == parts(p).len());
    lemma_spans_ok(p);
    let n = spans(p).len() as int;
    if n >= 2 {
        lemma_take_parts(p, n - 2);
        assert(parts(p).take(n - 1) =~= parts(p).drop_last());
    } else {
        let none = Seq::<u8>::empty();
        lemma_no_parts();
        lemma_slash_at_end(none);
        let q = parent_of(p).unwrap();
        if is_abs(p) {
            assert(p.take(1) =~= none.push(SLASH));
        }
        assert(parts(q) =~= parts(p).drop_last());
    }
}

/// A symbolic link with a relative name can be made only where that name leads
/// from: beside the process, or behind `./`.
pub proof fn relative_links_stay_here(e: EntryView, opts: CopyOptions, watched: bool)
    requires
        parts(destination_of(e)).len() > 0,
    ensures
        ({
            let dst = destination_of(e);
            let before = parts(dst).drop_last();
            let here = !is_abs(dst) && (before.len() == 0 || before.len() == 1 && before[0]
                == dot());
            &&& job_of(e, opts, watched).stray_link <==> !is_abs(source_of(e)) && !here
            &&& job_of(e, opts, watched).has_parent <==> is_abs(dst) || before.len() > 0
        }),
{
    let dst = destination_of(e);
    let q = parent_of(dst).unwrap();
    parents_have_all_parts_but_the_last(dst);
    assert(spans(dst).len() == parts(dst).len());
    if parts(q) == seq![dot()] {
        assert(parts(q)[0] == dot());
    } else if parts(q).len() == 1 && parts(q)[0] == dot() {
        assert(parts(q) =~= seq![dot()]);
    }
    if q.len() == 0 {
        lemma_no_parts();
        assert(q =~= Seq::empty());
    }
}

// ---------------------------------------------------------------------------
// The order of the steps
// ---------------------------------------------------------------------------

/// The stage that a step belongs to.
pub open spec fn stage(s: StepView) -> int {
    match s {
        StepView::CheckRoom => 0,
        StepView::Make(_) => 1,
        StepView::Share { .. } => 2,
        StepView::Link(_) => 3,
        StepView::Dress(_) => 4,
    }
}

/// The room is checked, directories are made, outer ones first, then files and
/// links are copied, then hard links made, and at last directories get their
/// attributes, inner ones first.
pub proof fn steps_come_in_stages(
    es: Seq<EntryView>,
    jobs: int,
    keeps: bool,
    checks: bool,
    i: int,
    j: int,
)
    requires
        0 <= i < j < course_of(es, jobs, keeps, checks).len(),
    ensures
        ({
            let a = course_of(es, jobs, keeps, checks)[i];
            let b = course_of(es, jobs, keeps, checks)[j];
            &&& stage(a) <= stage(b)
            &&& a is Make && b is Make ==> a->Make_0 < b->Make_0
            &&& a is Link && b is Link ==> a->Link_0 < b->Link_0
            &&& a is Dress && b is Dress ==> a->Dress_0 > b->Dress_0
            &&& !(a is Share && b is Share)
        }),
{
    let c = course_of(es, jobs, keeps, checks);
    let w = writing_part(es, jobs, checks);
    let make = places(es, Phase::Directories);
    let links = places(es, Phase::HardLinks);
    let n = w.len() as int;
    lemma_places(es, Phase::Directories);
    lemma_places(es, Phase::HardLinks);
    let first: int = if checks {
        1
    } else {
        0
    };
    assert forall|k: int| 0 <= k < n implies #[trigger] w[k] == if k < first {
        StepView::CheckRoom
    } else if k < first + make.len() {
        StepView::Make(make[k - first])
    } else if k == first + make.len() {
        w[k]
    } else {
        StepView::Link(links[k - first - make.len() - 1])
    } by {}
    assert(w[first + make.len()] is Share);
    assert(c[i] == if i < n {
        w[i]
    } else {
        dressing_part(es, keeps)[i - n]
    });
    assert(c[j] == if j < n {
        w[j]
    } else {
        dressing_part(es, keeps)[j - n]
    });
    if i >= n {
        assert(make.reverse()[i - n] == make[make.len() - 1 - (i - n)]);
    }
    if j >= n {
        assert(make.reverse()[j - n] == make[make.len() - 1 - (j - n)]);
    }
}

/// There is at least one worker, there are no more than asked for or than there
/// is work, and as many as both allow.
pub proof fn workers_are_as_many_as_useful(jobs: int, work: int)
    requires
        jobs >= 0,
        work >= 0,
    ensures
        workers_for(jobs, work) >= 1,
        jobs >= 1 ==> workers_for(jobs, work) <= jobs,
        work >= 1 ==> workers_for(jobs, work) <= work,
        jobs >= 1 && work >= 1 ==> workers_for(jobs, work) == jobs || workers_for(jobs, work)
            == work,
{
}

/// The number asked for is the number of jobs, but for a dialogue, which allows
/// one; nought stands for the cores of the machine, up to eight.
pub proof fn jobs_are_as_asked(jobs: usize, overwrite: Overwrite, cores: usize)
    ensures
        overwrite != Overwrite::Interactive && jobs > 0 ==> jobs_of(jobs, overwrite, cores) == jobs,
        overwrite != Overwrite::Interactive && jobs == 0 && cores <= 8 ==> jobs_of(
            jobs,
            overwrite,
            cores,
        ) == cores,
        overwrite != Overwrite::Interactive && jobs == 0 && cores > 8 ==> jobs_of(
            jobs,
            overwrite,
            cores,
        ) == 8,
        overwrite == Overwrite::Interactive ==> jobs_of(jobs, overwrite, cores) == 1,
{
}

// ---------------------------------------------------------------------------
// What is counted
// ---------------------------------------------------------------------------

/// `b` is `a` with one more error, and nothing else.
pub open spec fn one_more_error(a: StatsView, b: StatsView) -> bool {
    &&& b.errors.len() == a.errors.len() + 1
    &&& b.errors.drop_last() == a.errors
    &&& b == StatsView { errors: b.errors, ..a }
}

/// Each outcome has its own count: what is copied counts as a file with its
/// bytes, and as verified when checksums were compared; what is kept, what was
/// there and what went wrong count as such.
pub proof fn each_outcome_has_its_count(
    st: StatsView,
    e: EntryView,
    opts: CopyOptions,
    watched: bool,
    o: Outcome,
    bytes: u64,
    cause: Seq<char>,
)
    ensures
        ({
            let job = job_of(e, opts, watched);
            let next = run_counted(st, e, job, o, bytes, cause);
            let verified = opts.verify && e is File && opts.mode == CopyMode::Copy
                && !opts.attributes_only;
            match o {
                Outcome::Copied => {
                    &&& next.files_copied == st.files_copied + if e is Dir {
                        0int
                    } else {
                        1
                    }
                    &&& next.bytes_copied == st.bytes_copied + if e is Dir {
                        0int
                    } else {
                        bytes as int
                    }
                    &&& next.verified == st.verified + if verified {
                        1int
                    } else {
                        0
                    }
                    &&& next.errors == st.errors && next.warnings == st.warnings
                    &&& next.skipped == st.skipped && next.already_present == st.already_present
                    &&& next.dirs_created == st.dirs_created
                },
                Outcome::Skipped => next == (StatsView { skipped: st.skipped + 1, ..st }),
                Outcome::AlreadyPresent => next == (StatsView {
                    already_present: st.already_present + 1,
                    ..st
                }),
                Outcome::Refused | Outcome::DirectoryInTheWay | Outcome::Failed(_) => one_more_error(
                    st,
                    next,
                ),
                Outcome::Renamed | Outcome::CrossDevice => next == st,
            }
        }),
{
    let next = run_counted(st, e, job_of(e, opts, watched), o, bytes, cause);
    if next.errors.len() > st.errors.len() {
        assert(next.errors.drop_last() =~= st.errors);
    }
}

/// A directory counts as created when it is new; one that was there does not
/// count, and one that could not be made is an error.
pub proof fn new_directories_count(st: StatsView, dst: Seq<u8>, done: DirDone)
    ensures
        ({
            let next = directory_counted(st, dst, done);
            match done {
                DirDone::Made { existed } => next == (StatsView {
                    dirs_created: st.dirs_created + if existed {
                        0int
                    } else {
                        1
                    },
                    ..st
                }),
                _ => one_more_error(st, next),
            }
        }),
{
    let next = directory_counted(st, dst, done);
    if next.errors.len() > st.errors.len() {
        assert(next.errors.drop_last() =~= st.errors);
    }
}

/// Each path that is left aside gets a warning of its own, which ends with it.
pub proof fn what_is_left_aside_is_said(skipped: Seq<Seq<u8>>, i: int)
    requires
        0 <= i < skipped.len(),
    ensures
        aside_warnings(skipped).len() == skipped.len(),
        ({
            let w = aside_warnings(skipped)[i];
            let p = shown(skipped[i]);
            w.len() >= p.len() && w.skip(w.len() - p.len()) == p
        }),
{
    let w = aside_warnings(skipped)[i];
    let p = shown(skipped[i]);
    assert(w.skip(w.len() - p.len()) =~= p);
}

/// Everything but a directory is noted when it was copied, and the note begins
/// with the source.
pub proof fn notes_begin_with_the_source(e: EntryView, job: Job)
    ensures
        note_of(e, job) is None <==> e is Dir,
        note_of(e, job) matches Some(t) ==> {
            let p = shown(source_of(e));
            t.len() >= p.len() && t.take(p.len() as int) == p
        },
{
    if let Some(t) = note_of(e, job) {
        let p = shown(source_of(e));
        assert(t.take(p.len() as int) =~= p);
    }
}

// ---------------------------------------------------------------------------
// Where there has to be room
// ---------------------------------------------------------------------------

/// The way up starts with the path itself and goes from each directory to the
/// one that it is in, as far as there is one.
pub proof fn the_way_up_is_complete(p: Seq<u8>, i: int)
    requires
        0 <= i < ancestors_of(p).len(),
    ensures
        ancestors_of(p)[0] == p,
        i + 1 < ancestors_of(p).len() ==> parent_of(ancestors_of(p)[i]) == Some(
            ancestors_of(p)[i + 1],
        ),
        i + 1 == ancestors_of(p).len() ==> parent_of(ancestors_of(p)[i]) is None,
    decreases p.len(),
{
    crate::path::lemma_parent_is_shorter(p);
    if let Some(q) = parent_of(p) {
        let a = ancestors_of(p);
        assert(a == seq![p] + ancestors_of(q));
        assert(ancestors_of(q).len() > 0);
        the_way_up_is_complete(q, if i > 0 {
            i - 1
        } else {
            0
        });
        if i > 0 {
            assert(a[i] == ancestors_of(q)[i - 1]);
        }
        if i + 1 < a.len() {
            assert(a[i + 1] == ancestors_of(q)[i]);
        }
    }
}

/// What is asked for room is the first place on the way that is there; when
/// none is, the last resort.
pub proof fn the_nearest_place_is_asked(
    candidates: Seq<Seq<u8>>,
    exists_at: Seq<bool>,
    top: Seq<u8>,
    i: int,
)
    requires
        candidates.len() == exists_at.len(),
        0 <= i <= candidates.len(),
        forall|k: int| 0 <= k < i ==> !#[trigger] exists_at[k],
        i < candidates.len() ==> exists_at[i],
    ensures
        i < candidates.len() ==> first_existing(candidates, exists_at, top) == candidates[i],
        i == candidates.len() ==> first_existing(candidates, exists_at, top) == top,
    decreases candidates.len(),
{
    if i > 0 {
        assert(!exists_at[0]);
        assert forall|k: int| 0 <= k < i - 1 implies !#[trigger] exists_at.skip(1)[k] by {
            assert(!exists_at[k + 1]);
        }
        the_nearest_place_is_asked(candidates.skip(1), exists_at.skip(1), top, i - 1);
    }
}

/// There is something to watch, and to make room for, exactly when the contents
/// of files are copied.
pub proof fn bytes_are_watched_when_contents_are_copied(
    cfg: Config,
    e: EntryView,
    opts: CopyOptions,
    watched: bool,
)
    requires
        e is File,
        opts.mode == cfg.mode,
        opts.attributes_only == cfg.attributes_only,
    ensures
        cfg.moves_bytes() <==> job_of(e, opts, watched).copies_data(),
        cfg.moves_bytes() <==> cfg.mode == CopyMode::Copy && !cfg.attributes_only,
{
}

/// Only a directory serves as a directory: anything else with its name, a link
/// to nothing too, is in the way.
pub proof fn only_directories_serve_as_directories(link: Option<Facts>, reached: Option<Facts>)
    ensures
        link is None ==> !blocks_directory(link, reached),
        link is Some && reached is None ==> blocks_directory(link, reached),
        link is Some && reached is Some ==> (blocks_directory(link, reached) <==> reached.unwrap().kind
            != FileKind::Dir),
{
}

/// The last resort is the root for an absolute path, and elsewhere the directory
/// that the process works in.
pub proof fn the_last_resort_is_always_there(p: Seq<u8>)
    ensures
        is_abs(p) ==> top_of(p) == seq![SLASH],
        !is_abs(p) ==> top_of(p) == dot(),
        is_abs(top_of(p)) == is_abs(p),
{
}

} // verus!
