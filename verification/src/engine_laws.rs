//! What holds of every run, whatever the operations come to.

use vstd::prelude::*;

use crate::engine::{
    known_newer, modified_in, At, Facts, Job, Loc, Op, Outcome, Reply, Route, Stamp, Work,
};
use crate::options::{BackupControl, Overwrite, Reflink};
use crate::plan::FileKind;

verus! {

/// Where a run is after these replies.
pub open spec fn after(job: Job, rs: Seq<Reply>) -> At
    decreases rs.len(),
{
    if rs.len() == 0 {
        job.start()
    } else {
        job.next_at(after(job, rs.drop_last()), rs.last())
    }
}

/// The operation that the reply number `i` answers.
pub open spec fn op_number(job: Job, rs: Seq<Reply>, i: int) -> Option<Op> {
    job.op_at(after(job, rs.take(i)))
}

proof fn lemma_after(job: Job, rs: Seq<Reply>, i: int)
    requires
        0 <= i < rs.len(),
    ensures
        after(job, rs.take(i + 1)) == job.next_at(after(job, rs.take(i)), rs[i]),
{
    assert(rs.take(i + 1).drop_last() =~= rs.take(i));
    assert(rs.take(i + 1).last() == rs[i]);
}

proof fn lemma_whole(rs: Seq<Reply>)
    ensures
        rs.take(rs.len() as int) == rs,
{
    assert(rs.take(rs.len() as int) =~= rs);
}

// ---------------------------------------------------------------------------
// Every run ends
// ---------------------------------------------------------------------------

/// An upper bound on the operations that are still to come.
pub open spec fn rank(at: At) -> int {
    match at {
        At::DirCheck => 40,
        At::Exists => 39,
        At::SourceTime => 38,
        At::DestTime(_) => 37,
        At::Asking => 37,
        At::Resuming => 36,
        At::BackupLook => 35,
        At::BackupList => 34,
        At::SettingAside(_) => 33,
        At::ClearLook { early } => if early {
            32
        } else {
            29
        },
        At::ClearFile { early } | At::ClearTree { early } => if early {
            31
        } else {
            28
        },
        At::Parent => 30,
        At::Linking | At::Symlinking => 27,
        At::CreateLook => 27,
        At::Creating | At::FifoMaking => 26,
        At::LinkRead => 27,
        At::LinkLook => 26,
        At::LinkClear => 25,
        At::Relinking => 24,
        At::LinkAttrLook => 23,
        At::LinkOwnerLook(_) => 22,
        At::LinkOwner(_) => 21,
        At::LinkTimes(_) => 20,
        At::Transferring(route) => if route == Route::Clone {
            27
        } else {
            26
        },
        At::Permissions => 25,
        At::AttrLook(l) => attribute_rank(l, 5),
        At::OwnerLook { at: l, .. } => attribute_rank(l, 4),
        At::Owner { at: l, .. } => attribute_rank(l, 3),
        At::Mode { at: l, .. } => attribute_rank(l, 2),
        At::Times { at: l, .. } => attribute_rank(l, 1),
        At::Xattr(l) => attribute_rank(l, 0),
        At::SourceSum => 18,
        At::CopySum(_) => 17,
        At::Publishing => 16,
        At::Renaming => 2,
        At::Discarding(_) => 1,
        At::Finished(_) => 0,
    }
}

/// The attributes of a temporary file come before its name, those of the
/// destination after.
pub open spec fn attribute_rank(l: Loc, n: int) -> int {
    if l == Loc::Tmp {
        19 + n
    } else {
        10 + n
    }
}

/// How many operations are still to come from the places that stages lead to.
proof fn lemma_stage_ranks(job: Job)
    ensures
        rank(job.housed()) <= 29,
        rank(job.cleared_early()) <= 30,
        rank(job.saved()) <= 32,
        rank(job.not_present()) <= 35,
        rank(job.allowed()) <= 36,
{
    reveal(Job::allowed);
    reveal(Job::not_present);
    reveal(Job::saved);
    reveal(Job::cleared_early);
    reveal(Job::housed);
}

/// How many operations are still to come from the places where attributes are
/// given.
proof fn lemma_attribute_ranks(job: Job, l: Loc)
    ensures
        rank(job.dressed(l)) < attribute_rank(l, 0),
        rank(job.timed(l)) < attribute_rank(l, 1),
        forall|f: Facts| rank(#[trigger] job.moded(l, f)) < attribute_rank(l, 2),
        forall|f: Facts| rank(#[trigger] job.owned(l, f)) < attribute_rank(l, 3),
        rank(job.attributes(l)) < attribute_rank(l, 6),
{
    reveal(Job::attributes);
    reveal(Job::owned);
    reveal(Job::moded);
    reveal(Job::timed);
    reveal(Job::dressed);
}

/// `at` is one of the steps of a link that is made anew.
pub open spec fn makes_link(at: At) -> bool {
    at is LinkRead || at is LinkLook || at is LinkClear || at is Relinking || at is LinkAttrLook
        || at is LinkOwnerLook || at is LinkOwner || at is LinkTimes
}

/// `at` is one of the steps that give attributes.
pub open spec fn makes_attributes(at: At) -> bool {
    at is AttrLook || at is OwnerLook || at is Owner || at is Mode || at is Times || at is Xattr
}

/// `at` is one of the steps that fill the temporary file and give it its name.
pub open spec fn makes_file(at: At) -> bool {
    at is Transferring || at is Permissions || at is SourceSum || at is CopySum || at is Publishing
}

proof fn lemma_link_counts(job: Job, at: At, reply: Reply)
    requires
        makes_link(at),
    ensures
        rank(job.next_at(at, reply)) < rank(at),
{
}

proof fn lemma_attribute_counts(job: Job, at: At, reply: Reply)
    requires
        makes_attributes(at),
    ensures
        rank(job.next_at(at, reply)) < rank(at),
{
    lemma_attribute_ranks(job, Loc::Tmp);
    lemma_attribute_ranks(job, Loc::Dst);
    lemma_attribute_ranks(job, Loc::Src);
}

proof fn lemma_file_counts(job: Job, at: At, reply: Reply)
    requires
        makes_file(at),
    ensures
        rank(job.next_at(at, reply)) < rank(at),
{
    lemma_attribute_ranks(job, Loc::Tmp);
    lemma_attribute_ranks(job, Loc::Dst);
}

proof fn lemma_stage_counts(job: Job, at: At, reply: Reply)
    requires
        !makes_link(at),
        !makes_attributes(at),
        !makes_file(at),
        !(at is Finished),
    ensures
        rank(job.next_at(at, reply)) < rank(at),
{
    lemma_stage_ranks(job);
    lemma_attribute_ranks(job, Loc::Dst);
}

/// Each operation brings a run nearer to its end.
pub proof fn each_reply_counts(job: Job, at: At, reply: Reply)
    requires
        !(at is Finished),
    ensures
        rank(job.next_at(at, reply)) < rank(at),
{
    if makes_link(at) {
        lemma_link_counts(job, at, reply);
    } else if makes_attributes(at) {
        lemma_attribute_counts(job, at, reply);
    } else if makes_file(at) {
        lemma_file_counts(job, at, reply);
    } else {
        lemma_stage_counts(job, at, reply);
    }
}

/// A run ends after at most forty operations.
pub proof fn every_run_ends(job: Job, rs: Seq<Reply>)
    ensures
        rank(after(job, rs)) + rs.len() <= 40 || after(job, rs) is Finished,
        rs.len() >= 40 ==> after(job, rs) is Finished,
    decreases rs.len(),
{
    lemma_attribute_ranks(job, Loc::Dst);
    if rs.len() > 0 {
        every_run_ends(job, rs.drop_last());
        let before = after(job, rs.drop_last());
        if !(before is Finished) {
            each_reply_counts(job, before, rs.last());
        }
    }
}

// ---------------------------------------------------------------------------
// Where a run can be
// ---------------------------------------------------------------------------

/// `at` is a place where attributes are given to `l`.
pub open spec fn gives_attributes(at: At, l: Loc) -> bool {
    ||| at == At::AttrLook(l)
    ||| at matches At::OwnerLook { at: m, .. } && m == l
    ||| at matches At::Owner { at: m, .. } && m == l
    ||| at matches At::Mode { at: m, .. } && m == l
    ||| at matches At::Times { at: m, .. } && m == l
    ||| at == At::Xattr(l)
}

/// `at` is a place where something begins to be made or saved.
pub open spec fn opens(job: Job, at: At) -> bool {
    ||| at is BackupLook || at is ClearLook || at is Parent
    ||| at is Renaming || at is CreateLook || at is LinkRead || at is Transferring
    ||| at matches At::Finished(o) && o is Failed
    ||| at == At::Finished(Outcome::Copied) && job.work == Work::Dir
}

/// The stages before anything is there lead to such places.
pub(crate) proof fn lemma_opening(job: Job)
    ensures
        opens(job, job.housed()),
        opens(job, job.cleared_early()),
        opens(job, job.saved()),
        opens(job, job.not_present()),
        opens(job, job.allowed()) || job.allowed() is Resuming,
{
    reveal(Job::allowed);
    reveal(Job::not_present);
    reveal(Job::saved);
    reveal(Job::cleared_early);
    reveal(Job::housed);
}

/// `at` is a place where attributes are given to `l`, or the first behind
/// these.
pub open spec fn dresses(job: Job, at: At, l: Loc) -> bool {
    gives_attributes(at, l) || at == if l != Loc::Tmp {
        At::Finished(Outcome::Copied)
    } else if job.verify {
        At::SourceSum
    } else {
        At::Publishing
    }
}

/// The stages once something is at `l` lead to such places, and only what they
/// are handed goes on with them.
pub(crate) proof fn lemma_dressing(job: Job, l: Loc)
    ensures
        dresses(job, job.dressed(l), l) && model_of(job.dressed(l)) is None,
        dresses(job, job.timed(l), l) && model_of(job.timed(l)) is None,
        forall|f: Facts| dresses(job, #[trigger] job.moded(l, f), l),
        forall|f: Facts| model_of(#[trigger] job.moded(l, f)) matches Some(g) ==> g == f,
        forall|f: Facts| dresses(job, #[trigger] job.owned(l, f), l),
        forall|f: Facts| model_of(#[trigger] job.owned(l, f)) matches Some(g) ==> g == f,
        dresses(job, job.attributes(l), l) && model_of(job.attributes(l)) is None,
{
    reveal(Job::attributes);
    reveal(Job::owned);
    reveal(Job::moded);
    reveal(Job::timed);
    reveal(Job::dressed);
}

/// The places that runs of this job come to.
pub open spec fn possible(job: Job, at: At) -> bool {
    &&& !gives_attributes(at, Loc::Src)
    &&& gives_attributes(at, Loc::Tmp) ==> job.copies_data()
    &&& gives_attributes(at, Loc::Dst) ==> !job.copies_data()
    &&& (at is Permissions || at is SourceSum || at is CopySum) ==> job.copies_data()
    &&& (at is SourceSum || at is CopySum) ==> job.verify
    &&& at matches At::Transferring(r) ==> if r == Route::Stream {
        job.work == Work::Special
    } else {
        job.copies_data()
    }
    &&& at is Publishing ==> job.copies_data() || job.work == Work::Special
    &&& (at matches At::ClearLook { early } && early) ==> job.work == Work::File
        && job.remove_destination
    &&& (at matches At::ClearLook { early } && !early) ==> makes_in_place(job)
    &&& (at matches At::ClearFile { early } && early) ==> job.work == Work::File
        && job.remove_destination
    &&& (at matches At::ClearFile { early } && !early) ==> makes_in_place(job)
    &&& (at matches At::ClearTree { early } && early) ==> job.work == Work::File
        && job.remove_destination
    &&& (at matches At::ClearTree { early } && !early) ==> makes_in_place(job)
    &&& (at is Linking || at is Symlinking || at is CreateLook || at is Creating
        || at is FifoMaking) ==> makes_in_place(job)
    &&& (at is LinkRead || at is LinkLook || at is LinkClear || at is Relinking
        || at is LinkAttrLook || at is LinkOwnerLook || at is LinkOwner || at is LinkTimes)
        ==> job.work == Work::Symlink
    &&& at is Renaming ==> job.work == Work::Move
    &&& (at is BackupLook || at is BackupList || at is SettingAside) ==> saves(job)
}

/// The job makes something without a temporary file.
pub open spec fn makes_in_place(job: Job) -> bool {
    !job.copies_data() && job.work != Work::Special
}

/// The job saves an existing destination.
pub open spec fn saves(job: Job) -> bool {
    job.control() != BackupControl::Off
}

proof fn lemma_possible_stages(job: Job)
    ensures
        possible(job, job.housed()),
        possible(job, job.cleared_early()),
        possible(job, job.saved()),
        possible(job, job.not_present()),
        possible(job, job.allowed()),
        !in_the_making(job.housed()) || job.housed() is Transferring,
        !in_the_making(job.cleared_early()) || job.cleared_early() is Transferring,
        !in_the_making(job.saved()) || job.saved() is Transferring,
        !in_the_making(job.not_present()) || job.not_present() is Transferring,
        !in_the_making(job.allowed()) || job.allowed() is Transferring,
{
    reveal(Job::allowed);
    reveal(Job::not_present);
    reveal(Job::saved);
    reveal(Job::cleared_early);
    reveal(Job::housed);
}

proof fn lemma_possible_attributes(job: Job, l: Loc)
    requires
        l != Loc::Src,
        l == Loc::Tmp <==> job.copies_data(),
    ensures
        possible(job, job.dressed(l)),
        possible(job, job.timed(l)),
        forall|f: Facts| possible(job, #[trigger] job.moded(l, f)),
        forall|f: Facts| possible(job, #[trigger] job.owned(l, f)),
        possible(job, job.attributes(l)),
        l == Loc::Tmp ==> {
            &&& in_the_making(job.dressed(l))
            &&& in_the_making(job.timed(l))
            &&& forall|f: Facts| in_the_making(#[trigger] job.moded(l, f))
            &&& forall|f: Facts| in_the_making(#[trigger] job.owned(l, f))
            &&& in_the_making(job.attributes(l))
        },
        l == Loc::Dst ==> {
            &&& !may_be_there(job.dressed(l))
            &&& !may_be_there(job.timed(l))
            &&& forall|f: Facts| !may_be_there(#[trigger] job.moded(l, f))
            &&& forall|f: Facts| !may_be_there(#[trigger] job.owned(l, f))
            &&& !may_be_there(job.attributes(l))
        },
{
    lemma_dressing(job, l);
}

proof fn lemma_possible_making(job: Job, at: At, reply: Reply)
    requires
        possible(job, at),
        makes_link(at) || makes_attributes(at) || makes_file(at),
    ensures
        possible(job, job.next_at(at, reply)),
{
    if job.copies_data() {
        lemma_possible_attributes(job, Loc::Tmp);
    } else {
        lemma_possible_attributes(job, Loc::Dst);
    }
}

proof fn lemma_possible_rest(job: Job, at: At, reply: Reply)
    requires
        possible(job, at),
        !makes_link(at),
        !makes_attributes(at),
        !makes_file(at),
    ensures
        possible(job, job.next_at(at, reply)),
{
    lemma_possible_stages(job);
    if !job.copies_data() {
        lemma_possible_attributes(job, Loc::Dst);
    }
}

proof fn lemma_possible_step(job: Job, at: At, reply: Reply)
    requires
        possible(job, at),
    ensures
        possible(job, job.next_at(at, reply)),
{
    if makes_link(at) || makes_attributes(at) || makes_file(at) {
        lemma_possible_making(job, at, reply);
    } else {
        lemma_possible_rest(job, at, reply);
    }
}

pub(crate) proof fn lemma_possible(job: Job, rs: Seq<Reply>)
    ensures
        possible(job, after(job, rs)),
    decreases rs.len(),
{
    if rs.len() > 0 {
        lemma_possible(job, rs.drop_last());
        lemma_possible_step(job, after(job, rs.drop_last()), rs.last());
    } else if job.work == Work::Dir {
        lemma_possible_attributes(job, Loc::Dst);
    }
}

// ---------------------------------------------------------------------------
// What is kept is not touched
// ---------------------------------------------------------------------------

/// An operation that changes nothing.
pub open spec fn only_looks(op: Op) -> bool {
    op is Look || op is Ask || op is ListBackups || op is ReadLink || op is Checksum
}

/// The run ended without having anything to do.
pub open spec fn is_kept(o: Outcome) -> bool {
    o is Skipped || o is Refused || o is AlreadyPresent || o is DirectoryInTheWay
}

/// It is still open whether anything is to be done.
pub open spec fn undecided(at: At) -> bool {
    at is DirCheck || at is Exists || at is SourceTime || at is DestTime || at is Asking
        || at is Resuming
}

/// Nothing has been changed so far.
pub open spec fn untouched(at: At) -> bool {
    undecided(at) || (at matches At::Finished(o) && is_kept(o))
}

proof fn lemma_touched_stages(job: Job)
    ensures
        !untouched(job.housed()),
        !untouched(job.cleared_early()),
        !untouched(job.saved()),
        !untouched(job.not_present()),
{
    lemma_opening(job);
}

proof fn lemma_touched_attributes(job: Job, l: Loc)
    ensures
        !untouched(job.dressed(l)),
        !untouched(job.timed(l)),
        forall|f: Facts| !untouched(#[trigger] job.moded(l, f)),
        forall|f: Facts| !untouched(#[trigger] job.owned(l, f)),
        !untouched(job.attributes(l)),
{
    lemma_dressing(job, l);
}

proof fn lemma_untouched_making(job: Job, at: At, reply: Reply)
    requires
        makes_link(at) || makes_attributes(at) || makes_file(at),
    ensures
        !untouched(job.next_at(at, reply)),
{
    lemma_touched_attributes(job, Loc::Tmp);
    lemma_touched_attributes(job, Loc::Dst);
    lemma_touched_attributes(job, Loc::Src);
}

proof fn lemma_untouched_stages(job: Job, at: At, reply: Reply)
    requires
        !untouched(at),
        !makes_link(at),
        !makes_attributes(at),
        !makes_file(at),
    ensures
        !untouched(job.next_at(at, reply)),
{
    lemma_touched_stages(job);
    lemma_touched_attributes(job, Loc::Dst);
}

pub(crate) proof fn lemma_untouched_step(job: Job, at: At, reply: Reply)
    requires
        !untouched(at),
    ensures
        !untouched(job.next_at(at, reply)),
{
    if makes_link(at) || makes_attributes(at) || makes_file(at) {
        lemma_untouched_making(job, at, reply);
    } else {
        lemma_untouched_stages(job, at, reply);
    }
}

/// When a destination is kept, because it exists, is up to date or is a
/// directory, every operation of the run only looked.
pub proof fn kept_means_untouched(job: Job, rs: Seq<Reply>, i: int)
    requires
        after(job, rs) matches At::Finished(o) && is_kept(o),
        0 <= i < rs.len(),
    ensures
        op_number(job, rs, i) matches Some(op) ==> only_looks(op),
    decreases rs.len() - i,
{
    if i == rs.len() - 1 {
        lemma_after(job, rs, i);
        lemma_whole(rs);
        if !untouched(after(job, rs.take(i))) {
            lemma_untouched_step(job, after(job, rs.take(i)), rs[i]);
        }
    } else {
        lemma_untouched_until(job, rs, i);
    }
}

proof fn lemma_untouched_until(job: Job, rs: Seq<Reply>, i: int)
    requires
        untouched(after(job, rs)),
        0 <= i <= rs.len(),
    ensures
        untouched(after(job, rs.take(i))),
    decreases rs.len() - i,
{
    if i == rs.len() {
        lemma_whole(rs);
    } else {
        lemma_untouched_until(job, rs, i + 1);
        lemma_after(job, rs, i);
        if !untouched(after(job, rs.take(i))) {
            lemma_untouched_step(job, after(job, rs.take(i)), rs[i]);
        }
    }
}

proof fn lemma_finished_stays(job: Job, rs: Seq<Reply>, i: int)
    requires
        0 <= i <= rs.len(),
        after(job, rs.take(i)) is Finished,
    ensures
        after(job, rs) == after(job, rs.take(i)),
    decreases rs.len() - i,
{
    if i == rs.len() {
        lemma_whole(rs);
    } else {
        lemma_after(job, rs, i);
        lemma_finished_stays(job, rs, i + 1);
    }
}

/// The reply number `i` says that the destination is to be kept: it exists
/// under `-n`, it is known to be no older under `-u`, or the user did not say
/// yes under `-i`.
pub open spec fn kept_at(job: Job, rs: Seq<Reply>, i: int) -> bool {
    match after(job, rs.take(i)) {
        At::Exists => rs[i] is Saw && (job.overwrite == Overwrite::NoClobber || job.overwrite
            == Overwrite::NoClobberFail),
        At::DestTime(source_time) => known_newer(modified_in(rs[i]), source_time),
        At::Asking => rs[i] != Reply::Answer(true),
        _ => false,
    }
}

/// A destination that is to be kept is not touched, whatever else happens: no
/// operation of the run, before or after, does more than look.
pub proof fn existing_files_are_kept(job: Job, rs: Seq<Reply>, i: int)
    requires
        0 <= i < rs.len(),
        kept_at(job, rs, i),
    ensures
        after(job, rs) == At::Finished(Outcome::Skipped) || after(job, rs) == At::Finished(
            Outcome::Refused,
        ),
        forall|k: int|
            0 <= k < rs.len() ==> (#[trigger] op_number(job, rs, k) matches Some(op)
                ==> only_looks(op)),
{
    lemma_after(job, rs, i);
    lemma_finished_stays(job, rs, i + 1);
    assert forall|k: int| 0 <= k < rs.len() implies (#[trigger] op_number(job, rs, k) matches Some(
        op,
    ) ==> only_looks(op)) by {
        kept_means_untouched(job, rs, k);
    }
}

/// An existing destination is dealt with as the policy says: kept under `-n`,
/// kept under `-u` when it is known to be no older, and overwritten under `-i`
/// only after a yes.
pub proof fn policy_is_respected(job: Job, reply: Reply, source_time: Option<Stamp>)
    ensures
        reply is Saw && job.overwrite == Overwrite::NoClobber ==> job.next_at(At::Exists, reply)
            == At::Finished(Outcome::Skipped),
        reply is Saw && job.overwrite == Overwrite::NoClobberFail ==> job.next_at(
            At::Exists,
            reply,
        ) == At::Finished(Outcome::Refused),
        reply is Saw && job.overwrite == Overwrite::Update ==> job.next_at(At::Exists, reply)
            == At::SourceTime,
        known_newer(modified_in(reply), source_time) ==> job.next_at(
            At::DestTime(source_time),
            reply,
        ) == At::Finished(Outcome::Skipped),
        reply is Saw && job.overwrite == Overwrite::Interactive ==> job.next_at(At::Exists, reply)
            == At::Asking,
        reply != Reply::Answer(true) ==> job.next_at(At::Asking, reply) == At::Finished(
            Outcome::Skipped,
        ),
{
}

/// With `--resume`, a file that is there with the size of the source is not
/// copied again, and neither is a link that is there: the run ends after three
/// looks, or two. `link` is what is there, `reached` what is reached by it.
pub proof fn finished_copies_are_not_repeated(job: Job, link: Facts, reached: Facts)
    requires
        job.resume,
        job.overwrite == Overwrite::Clobber,
        job.work == Work::File && link.kind != FileKind::Dir && reached.kind == FileKind::File
            && reached.len == job.size || job.work == Work::Symlink && link.kind
            == FileKind::Symlink,
    ensures
        job.work == Work::File ==> after(
            job,
            seq![Reply::Saw(link), Reply::Saw(link), Reply::Saw(reached)],
        ) == At::Finished(Outcome::AlreadyPresent),
        job.work == Work::Symlink ==> after(job, seq![Reply::Saw(link), Reply::Saw(link)])
            == At::Finished(Outcome::AlreadyPresent),
{
    reveal(Job::allowed);
    let r = Reply::Saw(link);
    let none = Seq::<Reply>::empty();
    let one = seq![r];
    let two = seq![r, r];
    assert(one.drop_last() =~= none);
    assert(two.drop_last() =~= one);
    assert(seq![r, r, Reply::Saw(reached)].drop_last() =~= two);
    assert(after(job, none) == job.start());
    assert(after(job, one) == job.next_at(job.start(), r));
    assert(after(job, two) == job.next_at(after(job, one), r));
}

/// A copy never changes its source: only a move renames it.
pub proof fn source_is_not_touched(job: Job, rs: Seq<Reply>)
    requires
        job.work != Work::Move,
    ensures
        ({
            let op = job.op_at(after(job, rs));
            &&& op != Some(Op::Rename)
            &&& op != Some(Op::RemoveFile(Loc::Src))
            &&& !(op matches Some(Op::SetMode { at, .. }) && at == Loc::Src)
            &&& !(op matches Some(Op::SetTimes { at, .. }) && at == Loc::Src)
            &&& !(op matches Some(Op::CopyXattrs { at, .. }) && at == Loc::Src)
            &&& !(op matches Some(Op::SetOwner { at, .. }) && at == Loc::Src)
        }),
{
    lemma_possible(job, rs);
}

// ---------------------------------------------------------------------------
// Nothing partial under the final name
// ---------------------------------------------------------------------------

/// An operation that changes what the name of the destination stands for.
pub open spec fn changes_destination(op: Op) -> bool {
    ||| op is SetAside
    ||| op == Op::RemoveFile(Loc::Dst)
    ||| op is RemoveTree
    ||| op is HardLink
    ||| op is SymlinkToSource
    ||| op is CreateEmpty
    ||| op is Relink
    ||| op is MakeFifo
    ||| op matches Op::SetOwner { at, .. } && at == Loc::Dst
    ||| op matches Op::SetMode { at, .. } && at == Loc::Dst
    ||| op matches Op::SetTimes { at, .. } && at == Loc::Dst
    ||| op is SetLinkTimes
    ||| op matches Op::CopyXattrs { at, .. } && at == Loc::Dst
    ||| op is Publish
    ||| op is Rename
}

/// When the contents of a file are copied, the name of the destination only
/// ever gets the whole temporary file; before that, what was there is saved,
/// or removed where that was asked for.
pub proof fn destination_is_written_whole(job: Job, rs: Seq<Reply>)
    requires
        job.copies_data(),
    ensures
        job.op_at(after(job, rs)) matches Some(op) ==> changes_destination(op) ==> {
            ||| op is Publish
            ||| op is SetAside && saves(job)
            ||| (op == Op::RemoveFile(Loc::Dst) || op is RemoveTree) && job.remove_destination
        },
{
    lemma_possible(job, rs);
}

/// What is read as a stream gets its name whole, too: apart from attributes,
/// which come after that, nothing else is done to the destination, except that
/// what was there is saved.
pub proof fn streams_are_written_whole(job: Job, rs: Seq<Reply>)
    requires
        job.work == Work::Special,
    ensures
        job.op_at(after(job, rs)) matches Some(op) ==> changes_destination(op) ==> {
            ||| op is Publish
            ||| op is SetAside && saves(job)
            ||| gives_attributes(after(job, rs), Loc::Dst)
        },
{
    lemma_possible(job, rs);
}

/// A move does nothing but look, save what is at the destination, and rename.
pub proof fn moves_only_rename(job: Job, rs: Seq<Reply>)
    requires
        job.work == Work::Move,
    ensures
        job.op_at(after(job, rs)) matches Some(op) ==> {
            ||| only_looks(op)
            ||| op is SetAside && saves(job)
            ||| op is Rename
        },
{
    lemma_possible(job, rs);
    lemma_moving(job, rs);
}

/// What a move can come to.
pub open spec fn ends_move(o: Outcome) -> bool {
    o is Renamed || o is CrossDevice || o is Skipped || o is Refused || o is Failed
}

/// A move ends with the source renamed, with the word that it has to be copied,
/// with a destination that is kept, or with a failure.
pub proof fn moves_end_in_few_ways(job: Job, rs: Seq<Reply>)
    requires
        job.work == Work::Move,
    ensures
        after(job, rs) matches At::Finished(o) ==> ends_move(o),
{
    lemma_moving(job, rs);
}

/// The places that a move comes to.
pub open spec fn is_moving(at: At) -> bool {
    undecided(at) && !(at is DirCheck) && !(at is Resuming) || at is BackupLook || at is BackupList
        || at is SettingAside || at is Renaming || (at matches At::Finished(o) && ends_move(o))
}

proof fn lemma_moving(job: Job, rs: Seq<Reply>)
    requires
        job.work == Work::Move,
    ensures
        is_moving(after(job, rs)),
    decreases rs.len(),
{
    reveal(Job::allowed);
    reveal(Job::not_present);
    reveal(Job::saved);
    if rs.len() > 0 {
        lemma_moving(job, rs.drop_last());
    }
}

/// The temporary file is being made.
pub open spec fn in_the_making(at: At) -> bool {
    ||| at is Transferring
    ||| at is Permissions
    ||| gives_attributes(at, Loc::Tmp)
    ||| at is SourceSum
    ||| at is CopySum
    ||| at is Publishing
}

/// The operation at `at` did what it should.
pub open spec fn went_well(at: At, reply: Reply) -> bool {
    match at {
        At::Transferring(Route::Clone) => reply == Reply::Done,
        At::Transferring(_) => reply is Copied,
        At::AttrLook(_) => reply is Saw,
        At::OwnerLook { .. } => true,
        At::SourceSum => reply is Checksum,
        At::CopySum(c) => reply == Reply::Checksum(c),
        _ => reply == Reply::Done,
    }
}

proof fn lemma_making_step(job: Job, at: At, reply: Reply)
    requires
        possible(job, at),
        in_the_making(job.next_at(at, reply)),
        in_the_making(at),
    ensures
        went_well(at, reply) || (at == At::Transferring(Route::Clone) && job.reflink
            != Reflink::Always),
{
    lemma_possible_stages(job);
    if job.copies_data() {
        lemma_possible_attributes(job, Loc::Tmp);
    } else {
        lemma_possible_attributes(job, Loc::Dst);
    }
}

proof fn lemma_no_way_back(job: Job, at: At, reply: Reply)
    requires
        possible(job, at),
        !in_the_making(at),
        rank(at) < 26,
    ensures
        !in_the_making(job.next_at(at, reply)),
{
    lemma_possible_stages(job);
    if job.copies_data() {
        lemma_possible_attributes(job, Loc::Tmp);
    } else {
        lemma_possible_attributes(job, Loc::Dst);
    }
}

proof fn lemma_making_starts(job: Job, at: At, reply: Reply)
    requires
        possible(job, at),
        !in_the_making(at),
        in_the_making(job.next_at(at, reply)),
    ensures
        job.next_at(at, reply) is Transferring,
{
    lemma_possible_stages(job);
    if job.copies_data() {
        lemma_possible_attributes(job, Loc::Tmp);
    } else {
        lemma_possible_attributes(job, Loc::Dst);
    }
}

/// By the time the temporary file takes the name of the destination, it was
/// filled, and every operation on it did what it should, but for an attempt
/// to share blocks that need not succeed.
pub proof fn published_means_complete(job: Job, rs: Seq<Reply>, i: int)
    requires
        after(job, rs) == At::Publishing,
        0 <= i < rs.len(),
        in_the_making(after(job, rs.take(i))),
    ensures
        went_well(after(job, rs.take(i)), rs[i]) || (after(job, rs.take(i)) == At::Transferring(
            Route::Clone,
        ) && job.reflink != Reflink::Always),
{
    lemma_still_making(job, rs, i + 1);
    lemma_after(job, rs, i);
    lemma_possible(job, rs.take(i));
    lemma_making_step(job, after(job, rs.take(i)), rs[i]);
}

proof fn lemma_stays_out(job: Job, rs: Seq<Reply>, i: int)
    requires
        0 <= i <= rs.len(),
        !in_the_making(after(job, rs.take(i))),
        rank(after(job, rs.take(i))) < 26,
    ensures
        !in_the_making(after(job, rs)),
    decreases rs.len() - i,
{
    if i == rs.len() {
        lemma_whole(rs);
    } else {
        lemma_after(job, rs, i);
        lemma_possible(job, rs.take(i));
        lemma_no_way_back(job, after(job, rs.take(i)), rs[i]);
        if !(after(job, rs.take(i)) is Finished) {
            each_reply_counts(job, after(job, rs.take(i)), rs[i]);
        }
        lemma_stays_out(job, rs, i + 1);
    }
}

proof fn lemma_still_making(job: Job, rs: Seq<Reply>, i: int)
    requires
        after(job, rs) == At::Publishing,
        0 < i <= rs.len(),
        in_the_making(after(job, rs.take(i - 1))),
    ensures
        in_the_making(after(job, rs.take(i))),
{
    let before = after(job, rs.take(i - 1));
    lemma_after(job, rs, i - 1);
    lemma_possible(job, rs.take(i - 1));
    if !in_the_making(after(job, rs.take(i))) {
        each_reply_counts(job, before, rs[i - 1]);
        assert(rank(before) <= 27);
        assert(rank(after(job, rs.take(i))) < 26);
        lemma_stays_out(job, rs, i);
    }
}

/// A file takes its name only after its contents were transferred.
pub proof fn published_means_filled(job: Job, rs: Seq<Reply>)
    requires
        after(job, rs) == At::Publishing,
    ensures
        exists|i: int|
            0 <= i < rs.len() && #[trigger] after(job, rs.take(i)) is Transferring && went_well(
                after(job, rs.take(i)),
                rs[i],
            ),
{
    lemma_possible(job, rs);
    lemma_filled(job, rs);
}

proof fn lemma_filled(job: Job, rs: Seq<Reply>)
    requires
        job.work != Work::Dir,
        in_the_making(after(job, rs)),
        !(after(job, rs) is Transferring),
    ensures
        exists|i: int|
            0 <= i < rs.len() && #[trigger] after(job, rs.take(i)) is Transferring && went_well(
                after(job, rs.take(i)),
                rs[i],
            ),
    decreases rs.len(),
{
    let n = rs.len() - 1;
    let short = rs.drop_last();
    assert(short =~= rs.take(n));
    lemma_possible(job, short);
    let before = after(job, short);
    if !in_the_making(before) {
        lemma_making_starts(job, before, rs.last());
    }
    if before is Transferring {
        lemma_making_step(job, before, rs.last());
        assert(after(job, rs.take(n)) is Transferring);
        assert(went_well(after(job, rs.take(n)), rs[n]));
    } else {
        lemma_filled(job, short);
        let i = choose|i: int|
            0 <= i < short.len() && #[trigger] after(job, short.take(i)) is Transferring
                && went_well(after(job, short.take(i)), short[i]);
        assert(short.take(i) =~= rs.take(i));
        assert(after(job, rs.take(i)) is Transferring);
    }
}

/// Where checksums and the final name cannot come from.
proof fn lemma_not_yet(job: Job, l: Loc)
    requires
        job.verify,
    ensures
        !(job.dressed(l) is Publishing) && !(job.dressed(l) is CopySum),
        !(job.timed(l) is Publishing) && !(job.timed(l) is CopySum),
        forall|f: Facts|
            !(#[trigger] job.moded(l, f) is Publishing) && !(job.moded(l, f) is CopySum),
        forall|f: Facts|
            !(#[trigger] job.owned(l, f) is Publishing) && !(job.owned(l, f) is CopySum),
        !(job.attributes(l) is Publishing) && !(job.attributes(l) is CopySum),
        !(job.housed() is Publishing) && !(job.housed() is CopySum),
        !(job.cleared_early() is Publishing) && !(job.cleared_early() is CopySum),
        !(job.saved() is Publishing) && !(job.saved() is CopySum),
        !(job.not_present() is Publishing) && !(job.not_present() is CopySum),
        !(job.allowed() is Publishing) && !(job.allowed() is CopySum),
{
    lemma_dressing(job, l);
    lemma_opening(job);
}

proof fn lemma_before_publishing(job: Job, at: At, reply: Reply)
    requires
        possible(job, at),
        job.verify,
        job.copies_data(),
    ensures
        job.next_at(at, reply) is Publishing ==> (at matches At::CopySum(c) && reply
            == Reply::Checksum(c)),
        job.next_at(at, reply) matches At::CopySum(c) ==> at is SourceSum && reply
            == Reply::Checksum(c),
{
    lemma_not_yet(job, Loc::Tmp);
    lemma_not_yet(job, Loc::Dst);
}

/// With `--verify`, a file takes its name only when the checksum of what was
/// written is the checksum of the source.
pub proof fn published_means_verified(job: Job, rs: Seq<Reply>)
    requires
        after(job, rs) == At::Publishing,
        job.copies_data(),
        job.verify,
    ensures
        rs.len() >= 2,
        rs[rs.len() - 2] is Checksum,
        rs.last() == rs[rs.len() - 2],
        op_number(job, rs, rs.len() - 2) == Some(Op::Checksum(Loc::Src)),
        op_number(job, rs, rs.len() - 1) == Some(Op::Checksum(Loc::Tmp)),
{
    let n = rs.len() as int;
    let short = rs.drop_last();
    assert(short =~= rs.take(n - 1));
    lemma_possible(job, short);
    lemma_before_publishing(job, after(job, short), rs.last());
    let shorter = short.drop_last();
    assert(shorter =~= rs.take(n - 2));
    lemma_possible(job, shorter);
    lemma_before_publishing(job, after(job, shorter), short.last());
}

/// Where a success cannot come from when contents are copied.
proof fn lemma_not_done(job: Job)
    requires
        job.copies_data(),
    ensures
        job.housed() != At::Finished(Outcome::Copied),
        job.cleared_early() != At::Finished(Outcome::Copied),
        job.saved() != At::Finished(Outcome::Copied),
        job.not_present() != At::Finished(Outcome::Copied),
        job.allowed() != At::Finished(Outcome::Copied),
        job.dressed(Loc::Tmp) != At::Finished(Outcome::Copied),
        job.timed(Loc::Tmp) != At::Finished(Outcome::Copied),
        forall|f: Facts| #[trigger] job.moded(Loc::Tmp, f) != At::Finished(Outcome::Copied),
        forall|f: Facts| #[trigger] job.owned(Loc::Tmp, f) != At::Finished(Outcome::Copied),
        job.attributes(Loc::Tmp) != At::Finished(Outcome::Copied),
{
    lemma_dressing(job, Loc::Tmp);
    lemma_opening(job);
}

proof fn lemma_before_success(job: Job, at: At, reply: Reply)
    requires
        possible(job, at),
        job.copies_data(),
        job.next_at(at, reply) == At::Finished(Outcome::Copied),
    ensures
        at == At::Finished(Outcome::Copied) || (at is Publishing && reply == Reply::Done),
{
    lemma_not_done(job);
}

/// A file counts as copied only when the temporary file has taken its name.
pub proof fn copied_means_published(job: Job, rs: Seq<Reply>)
    requires
        job.copies_data(),
        after(job, rs) == At::Finished(Outcome::Copied),
    ensures
        exists|j: int|
            0 <= j < rs.len() && #[trigger] op_number(job, rs, j) == Some(Op::Publish) && rs[j]
                == Reply::Done,
    decreases rs.len(),
{
    let n = rs.len() - 1;
    let short = rs.drop_last();
    assert(short =~= rs.take(n));
    lemma_possible(job, short);
    lemma_before_success(job, after(job, short), rs.last());
    if after(job, short) is Publishing {
        assert(op_number(job, rs, n) == Some(Op::Publish));
    } else {
        copied_means_published(job, short);
        let j = choose|j: int|
            0 <= j < short.len() && #[trigger] op_number(job, short, j) == Some(Op::Publish)
                && short[j] == Reply::Done;
        assert(short.take(j) =~= rs.take(j));
        assert(op_number(job, rs, j) == Some(Op::Publish));
    }
}

/// A stream has its name: only its attributes are left, if anything.
pub open spec fn stream_is_there(at: At) -> bool {
    gives_attributes(at, Loc::Dst) || at == At::Finished(Outcome::Copied)
}

proof fn lemma_stream_stages(job: Job)
    requires
        job.work == Work::Special,
    ensures
        !stream_is_there(job.housed()),
        !stream_is_there(job.cleared_early()),
        !stream_is_there(job.saved()),
        !stream_is_there(job.not_present()),
        !stream_is_there(job.allowed()),
{
    lemma_opening(job);
}

proof fn lemma_stream_step(job: Job, at: At, reply: Reply)
    requires
        possible(job, at),
        job.work == Work::Special,
        stream_is_there(job.next_at(at, reply)),
    ensures
        stream_is_there(at) || (at is Publishing && reply == Reply::Done),
{
    lemma_stream_stages(job);
}

/// What is read as a stream counts as copied only when the temporary file has
/// taken its name.
pub proof fn copied_streams_are_published(job: Job, rs: Seq<Reply>)
    requires
        job.work == Work::Special,
        stream_is_there(after(job, rs)),
    ensures
        exists|j: int|
            0 <= j < rs.len() && #[trigger] op_number(job, rs, j) == Some(Op::Publish) && rs[j]
                == Reply::Done,
    decreases rs.len(),
{
    let n = rs.len() - 1;
    let short = rs.drop_last();
    assert(short =~= rs.take(n));
    lemma_possible(job, short);
    lemma_stream_step(job, after(job, short), rs.last());
    if after(job, short) is Publishing {
        assert(op_number(job, rs, n) == Some(Op::Publish));
    } else {
        copied_streams_are_published(job, short);
        let j = choose|j: int|
            0 <= j < short.len() && #[trigger] op_number(job, short, j) == Some(Op::Publish)
                && short[j] == Reply::Done;
        assert(short.take(j) =~= rs.take(j));
        assert(op_number(job, rs, j) == Some(Op::Publish));
    }
}

// ---------------------------------------------------------------------------
// No temporary file stays
// ---------------------------------------------------------------------------

/// The temporary file may be there.
pub open spec fn may_be_there(at: At) -> bool {
    in_the_making(at) || at is Discarding
}

proof fn lemma_there_step(job: Job, at: At, reply: Reply)
    requires
        possible(job, at),
        may_be_there(at),
        !may_be_there(job.next_at(at, reply)),
    ensures
        (at is Publishing && reply == Reply::Done) || at is Discarding,
{
    lemma_possible_stages(job);
    if job.copies_data() {
        lemma_possible_attributes(job, Loc::Tmp);
    } else {
        lemma_possible_attributes(job, Loc::Dst);
    }
}

/// After the reply number `j` the temporary file is gone: it has got its name,
/// or its removal was asked for.
pub open spec fn gone_at(job: Job, rs: Seq<Reply>, j: int) -> bool {
    ||| op_number(job, rs, j) == Some(Op::Publish) && rs[j] == Reply::Done
    ||| op_number(job, rs, j) == Some(Op::RemoveFile(Loc::Tmp))
}

/// When a run is finished, a temporary file that was begun has got its name or
/// was removed.
pub proof fn no_temporary_file_stays(job: Job, rs: Seq<Reply>, i: int)
    requires
        after(job, rs) is Finished,
        0 <= i < rs.len(),
        op_number(job, rs, i) is Some,
        op_number(job, rs, i).unwrap() is Transfer,
    ensures
        exists|j: int| i < j < rs.len() && #[trigger] gone_at(job, rs, j),
{
    lemma_possible(job, rs.take(i));
    lemma_after(job, rs, i);
    if !may_be_there(after(job, rs.take(i + 1))) {
        lemma_there_step(job, after(job, rs.take(i)), rs[i]);
    }
    lemma_gone(job, rs, i + 1);
}

proof fn lemma_gone(job: Job, rs: Seq<Reply>, i: int)
    requires
        after(job, rs) is Finished,
        0 <= i <= rs.len(),
        may_be_there(after(job, rs.take(i))),
    ensures
        exists|j: int| i <= j < rs.len() && #[trigger] gone_at(job, rs, j),
    decreases rs.len() - i,
{
    if i == rs.len() {
        lemma_whole(rs);
    } else {
        lemma_possible(job, rs.take(i));
        lemma_after(job, rs, i);
        if may_be_there(after(job, rs.take(i + 1))) {
            lemma_gone(job, rs, i + 1);
        } else {
            lemma_there_step(job, after(job, rs.take(i)), rs[i]);
            assert(gone_at(job, rs, i));
        }
    }
}

// ---------------------------------------------------------------------------
// What is overwritten is saved first
// ---------------------------------------------------------------------------

/// At the reply number `j` it is settled that nothing is lost: nothing was
/// there, or it has another name now.
pub open spec fn safe_at(job: Job, rs: Seq<Reply>, j: int) -> bool {
    ||| after(job, rs.take(j)) is BackupLook && !(rs[j] is Saw)
    ||| after(job, rs.take(j)) is SettingAside && rs[j] == Reply::Done
}

/// Where a run is before the destination is safe.
pub open spec fn before_safe(at: At) -> bool {
    undecided(at) || at is BackupLook || at is BackupList || at is SettingAside
}

proof fn lemma_safe_step(job: Job, at: At, reply: Reply)
    requires
        saves(job),
        before_safe(at),
        !before_safe(job.next_at(at, reply)),
        !(job.next_at(at, reply) is Finished),
    ensures
        (at is BackupLook && !(reply is Saw)) || (at is SettingAside && reply == Reply::Done),
{
    reveal(Job::allowed);
    reveal(Job::not_present);
}

/// With `--backup`, an operation that changes the destination, other than the
/// one that saves it, comes only after a look found nothing there or after
/// what was there has got another name.
pub proof fn overwritten_means_saved(job: Job, rs: Seq<Reply>)
    requires
        saves(job),
        job.work != Work::Dir,
        job.op_at(after(job, rs)) matches Some(op) && changes_destination(op) && !(op is SetAside),
    ensures
        exists|j: int| 0 <= j < rs.len() && #[trigger] safe_at(job, rs, j),
{
    lemma_saved(job, rs);
}

proof fn lemma_saved(job: Job, rs: Seq<Reply>)
    requires
        saves(job),
        job.work != Work::Dir,
        !before_safe(after(job, rs)),
        !(after(job, rs) is Finished),
    ensures
        exists|j: int| 0 <= j < rs.len() && #[trigger] safe_at(job, rs, j),
    decreases rs.len(),
{
    let n = rs.len() - 1;
    let short = rs.drop_last();
    assert(short =~= rs.take(n));
    let before = after(job, short);
    if before_safe(before) {
        lemma_safe_step(job, before, rs.last());
        assert(safe_at(job, rs, n));
    } else {
        lemma_saved(job, short);
        let j = choose|j: int| 0 <= j < short.len() && #[trigger] safe_at(job, short, j);
        assert(short.take(j) =~= rs.take(j));
        assert(safe_at(job, rs, j));
    }
}

// ---------------------------------------------------------------------------
// Attributes are those of the source
// ---------------------------------------------------------------------------

/// What was seen at the source, where a run still has to give it to something.
pub open spec fn model_of(at: At) -> Option<Facts> {
    match at {
        At::OwnerLook { model, .. } => Some(model),
        At::Owner { model, .. } => Some(model),
        At::Mode { model, .. } => Some(model),
        At::Times { model, .. } => Some(model),
        At::LinkOwnerLook(f) => Some(f),
        At::LinkOwner(f) => Some(f),
        At::LinkTimes(f) => Some(f),
        _ => None,
    }
}

proof fn lemma_model_stages(job: Job)
    ensures
        model_of(job.housed()) is None,
        model_of(job.cleared_early()) is None,
        model_of(job.saved()) is None,
        model_of(job.not_present()) is None,
        model_of(job.allowed()) is None,
{
    lemma_opening(job);
}

proof fn lemma_model_step(job: Job, at: At, reply: Reply)
    requires
        possible(job, at),
        model_of(job.next_at(at, reply)) is Some,
    ensures
        ({
            let f = model_of(job.next_at(at, reply)).unwrap();
            ||| model_of(at) == Some(f)
            ||| reply == Reply::Saw(f) && job.op_at(at) == Some(
                Op::Look { at: Loc::Src, follow: job.keeps_reached() },
            )
        }),
{
    lemma_model_stages(job);
    lemma_dressing(job, Loc::Tmp);
    lemma_dressing(job, Loc::Dst);
}

/// The reply number `j` is what was seen at the source: at the file that was
/// copied, when links are followed for it.
pub open spec fn source_seen_at(job: Job, rs: Seq<Reply>, j: int, f: Facts) -> bool {
    &&& rs[j] == Reply::Saw(f)
    &&& op_number(job, rs, j) == Some(Op::Look { at: Loc::Src, follow: job.keeps_reached() })
}

/// The owner, the mode and the times that are given are those that were seen
/// at the source.
pub proof fn attributes_are_those_of_the_source(job: Job, rs: Seq<Reply>)
    requires
        model_of(after(job, rs)) is Some,
    ensures
        ({
            let f = model_of(after(job, rs)).unwrap();
            &&& exists|j: int| 0 <= j < rs.len() && #[trigger] source_seen_at(job, rs, j, f)
            &&& match job.op_at(after(job, rs)) {
                Some(Op::SetOwner { uid, gid, .. }) => uid == f.uid && gid == f.gid,
                Some(Op::SetMode { mode, .. }) => mode == f.mode,
                Some(Op::SetTimes { times, .. }) => times == f.times,
                Some(Op::SetLinkTimes(times)) => times == f.times,
                Some(op) => op is Look,
                None => false,
            }
        }),
    decreases rs.len(),
{
    if rs.len() == 0 {
        lemma_dressing(job, Loc::Dst);
    } else {
        let n = rs.len() - 1;
        let short = rs.drop_last();
        let f = model_of(after(job, rs)).unwrap();
        assert(short =~= rs.take(n));
        lemma_possible(job, short);
        lemma_model_step(job, after(job, short), rs.last());
        if model_of(after(job, short)) == Some(f) {
            attributes_are_those_of_the_source(job, short);
            let j = choose|j: int| 0 <= j < short.len() && #[trigger] source_seen_at(job, short, j, f);
            assert(short.take(j) =~= rs.take(j));
            assert(source_seen_at(job, rs, j, f));
        } else {
            assert(source_seen_at(job, rs, n, f));
        }
    }
}

/// Every operation that gives an owner, a mode or times comes with what was
/// seen at the source.
pub proof fn nothing_else_is_given(job: Job, rs: Seq<Reply>)
    ensures
        job.op_at(after(job, rs)) matches Some(op) ==> (op is SetOwner || op is SetMode
            || op is SetTimes || op is SetLinkTimes) ==> model_of(after(job, rs)) is Some,
{
}

} // verus!
