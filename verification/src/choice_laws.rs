//! What a run decides: whether it goes on, what it saves, and how bytes go.

use vstd::prelude::*;

use crate::engine::{
    At, BackupName, Facts, Job, Loc, Op, Outcome, Reply, Route, Stamp, Why, Work,
};
use crate::engine_laws::{
    after, is_kept, lemma_dressing, lemma_opening, lemma_possible, op_number, possible, undecided,
};
use crate::options::{BackupControl, Overwrite, Reflink};
use crate::plan::FileKind;

verus! {

// ---------------------------------------------------------------------------
// Whether it goes on
// ---------------------------------------------------------------------------

/// A moment, in nanoseconds since the epoch.
pub open spec fn moment(s: Stamp) -> int {
    s.secs * 1_000_000_000 + s.nanos
}

/// The nanoseconds of a moment make no second.
pub open spec fn is_moment(s: Stamp) -> bool {
    s.nanos < 1_000_000_000
}

/// The run goes on to do what it is for.
pub open spec fn goes_on(at: At) -> bool {
    !undecided(at) && !(at matches At::Finished(o) && is_kept(o))
}

proof fn lemma_goes_on(job: Job)
    ensures
        goes_on(job.not_present()),
        goes_on(job.allowed()) || job.allowed() is Resuming,
        !job.resume ==> goes_on(job.allowed()),
{
    lemma_opening(job);
    reveal(Job::allowed);
}

/// Without a destination nothing stands in the way: a look that sees nothing
/// lets the run go on, under every policy.
pub proof fn nothing_there_is_nothing_in_the_way(job: Job, reply: Reply)
    requires
        !(reply is Saw),
        !job.resume,
    ensures
        goes_on(job.next_at(At::Exists, reply)),
        job.next_at(At::DirCheck, reply) == At::Exists,
{
    lemma_goes_on(job);
}

/// With `-u`, what is there is kept exactly when both ages are known and it was
/// changed no earlier than the source; otherwise the run goes on.
pub proof fn updates_compare_moments(job: Job, there: Facts, source: Facts, dest: Facts)
    requires
        job.overwrite == Overwrite::Update,
        !job.resume,
        source.modified matches Some(s) ==> is_moment(s),
        dest.modified matches Some(d) ==> is_moment(d),
    ensures
        ({
            let a = job.next_at(At::Exists, Reply::Saw(there));
            let b = job.next_at(a, Reply::Saw(source));
            let c = job.next_at(b, Reply::Saw(dest));
            let follow = job.work == Work::File || job.work == Work::Special || job.work
                == Work::HardLink;
            &&& job.op_at(a) == Some(Op::Look { at: Loc::Src, follow })
            &&& job.op_at(b) == Some(Op::Look { at: Loc::Dst, follow })
            &&& match (source.modified, dest.modified) {
                (Some(s), Some(d)) => if moment(d) >= moment(s) {
                    c == At::Finished(Outcome::Skipped)
                } else {
                    goes_on(c)
                },
                _ => goes_on(c),
            }
        }),
{
    lemma_goes_on(job);
}

/// An answer decides under `-i`, and nobody is asked under the other policies:
/// `-n` keeps what is there, without a word or as an error, and without a policy
/// it is overwritten.
pub proof fn policies_differ(job: Job, there: Facts, answer: bool)
    requires
        !job.resume,
    ensures
        ({
            let a = job.next_at(At::Exists, Reply::Saw(there));
            &&& job.op_at(a) == Some(Op::Ask) <==> job.overwrite == Overwrite::Interactive
            &&& job.overwrite == Overwrite::Interactive ==> if answer {
                goes_on(job.next_at(a, Reply::Answer(answer)))
            } else {
                job.next_at(a, Reply::Answer(answer)) == At::Finished(Outcome::Skipped)
            }
            &&& a == At::Finished(Outcome::Skipped) <==> job.overwrite == Overwrite::NoClobber
            &&& a == At::Finished(Outcome::Refused) <==> job.overwrite == Overwrite::NoClobberFail
            &&& goes_on(a) <==> job.overwrite == Overwrite::Clobber
        }),
{
    lemma_goes_on(job);
    lemma_opening(job);
    reveal(Job::allowed);
}

/// With `--resume`, a file counts as copied before when a regular file with as
/// many bytes is reached by its name, a link when a link is there; nothing else
/// does.
pub proof fn earlier_copies_are_known_by_size(job: Job, seen: Facts)
    requires
        job.resume,
        job.work == Work::File || job.work == Work::Symlink,
    ensures
        job.allowed() == At::Resuming,
        job.op_at(At::Resuming) == Some(Op::Look { at: Loc::Dst, follow: job.work == Work::File }),
        ({
            let next = job.next_at(At::Resuming, Reply::Saw(seen));
            let same = if job.work == Work::File {
                seen.kind == FileKind::File && seen.len == job.size
            } else {
                seen.kind == FileKind::Symlink
            };
            if same {
                next == At::Finished(Outcome::AlreadyPresent)
            } else {
                goes_on(next)
            }
        }),
        goes_on(job.next_at(At::Resuming, Reply::Failed)),
{
    reveal(Job::allowed);
    lemma_goes_on(job);
}

/// Without `--resume`, and for everything but files and links with it, nothing
/// counts as copied before: what may be done is done.
pub proof fn nothing_else_is_taken_for_an_earlier_copy(job: Job, reply: Reply)
    requires
        !job.resume || job.work != Work::File && job.work != Work::Symlink,
    ensures
        goes_on(job.allowed()),
        !(reply is Saw) ==> goes_on(job.next_at(At::Exists, reply)),
        job.next_at(At::Asking, Reply::Answer(true)) == job.allowed(),
{
    reveal(Job::allowed);
    lemma_goes_on(job);
}

/// A directory in the way of a file ends the run before anything is done.
pub proof fn directories_stay_in_the_way(job: Job, there: Facts)
    requires
        job.work == Work::File || job.work == Work::Special || job.work == Work::HardLink,
    ensures
        job.op_at(job.start()) == Some(Op::Look { at: Loc::Dst, follow: false }),
        there.kind == FileKind::Dir <==> job.next_at(job.start(), Reply::Saw(there))
            == At::Finished(Outcome::DirectoryInTheWay),
        there.kind != FileKind::Dir ==> job.next_at(job.start(), Reply::Saw(there)) == At::Exists,
{
}

/// A link, a FIFO and a move do not care for what kind of thing is in the way
/// when they start.
pub proof fn other_runs_start_with_the_policy(job: Job)
    requires
        job.work == Work::Symlink || job.work == Work::Fifo || job.work == Work::Move,
    ensures
        job.start() == At::Exists,
        job.op_at(job.start()) == Some(Op::Look { at: Loc::Dst, follow: false }),
{
}

/// What is in the way is removed as what it is: a directory with all that is in
/// it, anything else by itself; and where nothing is, nothing is removed.
pub proof fn what_is_in_the_way_goes_as_what_it_is(job: Job, early: bool, there: Facts)
    ensures
        job.op_at(At::ClearLook { early }) == Some(Op::Look { at: Loc::Dst, follow: false }),
        job.op_at(job.next_at(At::ClearLook { early }, Reply::Saw(there))) == Some(
            if there.kind == FileKind::Dir {
                Op::RemoveTree
            } else {
                Op::RemoveFile(Loc::Dst)
            },
        ),
        job.next_at(At::ClearLook { early }, Reply::Failed) == job.next_at(
            At::ClearFile { early },
            Reply::Done,
        ),
        job.next_at(At::ClearTree { early }, Reply::Done) == job.next_at(
            At::ClearFile { early },
            Reply::Done,
        ),
{
}

/// A rename ends the run of a move: with success, with the word that a copy is
/// needed, or with a failure.
pub proof fn renames_end_moves(job: Job, reply: Reply)
    requires
        job.work == Work::Move,
    ensures
        job.saved() == At::Renaming,
        job.op_at(At::Renaming) == Some(Op::Rename),
        job.next_at(At::Renaming, reply) == At::Finished(
            match reply {
                Reply::Done => Outcome::Renamed,
                Reply::CrossDevice => Outcome::CrossDevice,
                _ => Outcome::Failed(Why::Broken),
            },
        ),
{
    reveal(Job::saved);
}

/// What is done at `at` has to succeed.
pub open spec fn has_to_succeed(at: At) -> bool {
    ||| at is SettingAside || at is ClearFile || at is ClearTree || at is Parent
    ||| at is Linking || at is Symlinking || at is Creating || at is FifoMaking
    ||| at is LinkRead || at is LinkClear || at is Relinking || at is LinkAttrLook || at is LinkOwner
    ||| at matches At::Transferring(route) && route != Route::Clone
    ||| at is Permissions || at is AttrLook || at is Owner || at is Mode || at is Times || at
        is Xattr
    ||| at is SourceSum || at is CopySum || at is Publishing || at is Renaming
}

/// A failure is not passed over: where something has to succeed and fails, the
/// run fails, and a temporary file that is there goes first.
pub proof fn failures_are_not_passed_over(job: Job, at: At, reply: Reply)
    requires
        has_to_succeed(at),
        reply == Reply::Failed,
    ensures
        ({
            let next = job.next_at(at, reply);
            ||| next matches At::Finished(o) && o is Failed
            ||| next is Discarding && job.op_at(next) == Some(Op::RemoveFile(Loc::Tmp)) && (
            job.next_at(next, Reply::Done) matches At::Finished(o) && o is Failed)
        }),
{
}

/// Checksums that differ are a failure of their own.
pub proof fn differing_checksums_fail(job: Job, source: u64, copy: u64)
    ensures
        source != copy ==> job.next_at(At::CopySum(source), Reply::Checksum(copy))
            == At::Discarding(Why::Mismatch),
        source == copy ==> job.op_at(job.next_at(At::CopySum(source), Reply::Checksum(copy)))
            == Some(Op::Publish),
{
}

/// A link takes the place of anything but a directory.
pub proof fn links_do_not_replace_directories(job: Job, there: Facts)
    ensures
        ({
            let next = job.next_at(At::LinkLook, Reply::Saw(there));
            if there.kind == FileKind::Dir {
                next == At::Finished(Outcome::Failed(Why::LinkOverDirectory))
            } else {
                job.op_at(next) == Some(Op::RemoveFile(Loc::Dst))
            }
        }),
{
}

// ---------------------------------------------------------------------------
// What is saved
// ---------------------------------------------------------------------------

/// A backup gets a number under `numbered`, and under `existing` when there is
/// a numbered one: the one behind the highest, the first being one. Otherwise it
/// is a simple one.
pub proof fn backups_are_numbered_on(job: Job, there: Facts, highest: Option<u32>)
    requires
        job.backup matches Some(c) && c != BackupControl::Off,
        highest matches Some(h) ==> h < u32::MAX,
    ensures
        ({
            let control = job.backup.unwrap();
            let a = job.next_at(At::BackupLook, Reply::Saw(there));
            let b = job.next_at(a, Reply::Highest(highest));
            let numbered = control == BackupControl::Numbered || control == BackupControl::Existing
                && highest is Some;
            &&& control == BackupControl::Simple ==> job.op_at(a) == Some(
                Op::SetAside(BackupName::Simple),
            )
            &&& control != BackupControl::Simple ==> job.op_at(a) == Some(Op::ListBackups) && (
            job.op_at(b) matches Some(Op::SetAside(name)) && match name {
                BackupName::Simple => !numbered,
                BackupName::Numbered(n) => numbered && n == match highest {
                    Some(h) => h + 1,
                    None => 1,
                },
            })
        }),
{
}

/// A destination is saved, when it is there, before anything else is done, and
/// only with `--backup`; when that fails, the run ends.
pub proof fn saving_comes_first(job: Job, name: BackupName, reply: Reply)
    requires
        job.work != Work::Dir,
    ensures
        ({
            let saves = job.backup matches Some(c) && c != BackupControl::Off;
            &&& saves <==> job.not_present() == At::BackupLook
            &&& job.op_at(At::BackupLook) == Some(Op::Look { at: Loc::Dst, follow: false })
            &&& reply != Reply::Done ==> job.next_at(At::SettingAside(name), reply) == At::Finished(
                Outcome::Failed(Why::Backup),
            )
            &&& !saves ==> job.not_present() == job.saved()
            &&& !(reply is Saw) ==> job.next_at(At::BackupLook, reply) == job.saved()
            &&& job.next_at(At::SettingAside(name), Reply::Done) == job.saved()
        }),
{
    reveal(Job::not_present);
    reveal(Job::saved);
    reveal(Job::cleared_early);
    reveal(Job::housed);
}

// ---------------------------------------------------------------------------
// How bytes go
// ---------------------------------------------------------------------------

/// Blocks may be shared.
pub open spec fn may_share(job: Job) -> bool {
    job.reflink != Reflink::Off && !job.throttled
}

/// The route fits the job: bytes that are limited or watched go through a
/// buffer, zeros become holes where that was decided, and the system copies the
/// rest.
pub open spec fn fits_job(job: Job, route: Route) -> bool {
    match route {
        Route::Clone => may_share(job),
        Route::Sparse => job.sparse,
        Route::Buffered => !job.sparse && (job.watched || job.throttled),
        Route::Fast => !job.sparse && !job.watched && !job.throttled,
        Route::Stream => false,
    }
}

/// At the reply number `i`, an attempt to share blocks failed.
pub open spec fn sharing_failed_at(job: Job, rs: Seq<Reply>, i: int) -> bool {
    op_number(job, rs, i) == Some(Op::Transfer(Route::Clone)) && rs[i] != Reply::Done
}

proof fn lemma_route_step(job: Job, at: At, reply: Reply)
    requires
        job.copies_data(),
        possible(job, at),
        at matches At::Transferring(r) ==> fits_job(job, r),
    ensures
        job.next_at(at, reply) matches At::Transferring(r) ==> fits_job(job, r) && (r
            != Route::Clone && may_share(job) ==> at == At::Transferring(Route::Clone) && reply
            != Reply::Done && job.reflink == Reflink::Auto),
{
    lemma_dressing(job, Loc::Tmp);
    reveal(Job::allowed);
    reveal(Job::not_present);
    reveal(Job::saved);
    reveal(Job::cleared_early);
    reveal(Job::housed);
}

/// Bytes go the way that the options ask for: blocks are shared first where
/// they may be, and other ways are taken only when that fails, unless sharing
/// was demanded.
pub proof fn bytes_go_the_way_asked_for(job: Job, rs: Seq<Reply>, route: Route)
    requires
        job.copies_data(),
        job.op_at(after(job, rs)) == Some(Op::Transfer(route)),
    ensures
        fits_job(job, route),
        may_share(job) && route != Route::Clone ==> job.reflink == Reflink::Auto && exists|i: int|
            0 <= i < rs.len() && #[trigger] sharing_failed_at(job, rs, i),
    decreases rs.len(),
{
    if rs.len() > 0 {
        let n = rs.len() - 1;
        let short = rs.drop_last();
        let at = after(job, short);
        assert(short =~= rs.take(n));
        lemma_possible(job, short);
        if let At::Transferring(r) = at {
            bytes_go_the_way_asked_for(job, short, r);
        }
        lemma_route_step(job, at, rs.last());
        if may_share(job) && route != Route::Clone {
            assert(op_number(job, rs, n) == Some(Op::Transfer(Route::Clone)));
            assert(sharing_failed_at(job, rs, n));
        }
    }
}

/// With `--reflink=always`, a file whose blocks cannot be shared is not copied.
pub proof fn sharing_can_be_demanded(job: Job, reply: Reply)
    requires
        job.reflink == Reflink::Always,
        reply != Reply::Done,
    ensures
        job.next_at(At::Transferring(Route::Clone), reply) == At::Discarding(Why::Broken),
        job.next_at(At::Discarding(Why::Broken), reply) == At::Finished(
            Outcome::Failed(Why::Broken),
        ),
{
}

/// A whole copy counts the bytes that went through: those of the source when
/// blocks were shared, else what the system says; nothing else counts.
pub proof fn bytes_are_counted_once(job: Job, at: At, bytes: u64, reply: Reply)
    ensures
        ({
            let next = job.next_bytes(at, bytes, reply);
            let moves = job.op_at(at) matches Some(op) && op is Transfer;
            &&& !moves ==> next == bytes
            &&& job.op_at(at) == Some(Op::Transfer(Route::Clone)) ==> next == if reply
                == Reply::Done {
                job.size
            } else {
                bytes
            }
            &&& moves && job.op_at(at) != Some(Op::Transfer(Route::Clone)) ==> next == match reply {
                Reply::Copied(n) => n,
                _ => bytes,
            }
        }),
{
}

} // verus!
