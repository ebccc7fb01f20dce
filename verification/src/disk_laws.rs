//! What holds of the contents of a disk, whatever the operations come to.

use vstd::prelude::*;

use crate::disk::{
    all_mind_owners, describes, holds_the_source, is_link, leads_like, minds_owners, plays,
    same_contents, size_of_node, sound, Desk, Node, Play,
};
use crate::engine::{At, Facts, Job, Loc, Op, Outcome, Reply, Work};
use crate::engine_laws::{
    after, gives_attributes, lemma_dressing, lemma_opening, lemma_possible, lemma_untouched_step,
    makes_attributes, makes_file, makes_link, model_of, op_number, possible, undecided, untouched,
};
use crate::options::{CopyMode, Overwrite};
use crate::plan::FileKind;

verus! {

// ---------------------------------------------------------------------------
// A step and a run
// ---------------------------------------------------------------------------

proof fn lemma_first(job: Job, play: Play, n: int)
    requires
        plays(job, play),
        0 <= n <= play.replies.len(),
    ensures
        plays(job, play.first(n)),
        play.first(n).before() == play.before(),
        play.first(n).end() == play.desks[n],
{
    let part = play.first(n);
    assert forall|i: int| 0 <= i < part.replies.len() implies match #[trigger] op_number(
        job,
        part.replies,
        i,
    ) {
        Some(op) => sound(op, part.desks[i], part.replies[i], part.desks[i + 1]),
        None => part.desks[i + 1] == part.desks[i],
    } by {
        assert(part.replies.take(i) =~= play.replies.take(i));
        assert(op_number(job, play.replies, i) == op_number(job, part.replies, i));
    }
}

/// The last step of a run.
pub(crate) proof fn lemma_last(job: Job, play: Play)
    requires
        plays(job, play),
        play.replies.len() > 0,
    ensures
        ({
            let n = play.replies.len() - 1;
            let at = after(job, play.first(n).replies);
            &&& plays(job, play.first(n))
            &&& play.first(n).before() == play.before()
            &&& after(job, play.replies) == job.next_at(at, play.replies[n])
            &&& match job.op_at(at) {
                Some(op) => sound(op, play.first(n).end(), play.replies[n], play.end()),
                None => play.end() == play.first(n).end(),
            }
        }),
{
    let n = play.replies.len() - 1;
    lemma_first(job, play, n);
    assert(play.replies.drop_last() =~= play.replies.take(n));
    assert(op_number(job, play.replies, n) == job.op_at(after(job, play.replies.take(n))));
}

/// The operation is sound, and minds owners where that is asked.
spec fn sound_and(fair: bool, op: Op, a: Desk, reply: Reply, b: Desk) -> bool {
    sound(op, a, reply, b) && (fair ==> minds_owners(op, a, reply, b))
}

/// The last step of a run whose operations mind owners, where that is asked.
proof fn lemma_last_and(fair: bool, job: Job, play: Play)
    requires
        plays(job, play),
        fair ==> all_mind_owners(job, play),
        play.replies.len() > 0,
    ensures
        ({
            let n = play.replies.len() - 1;
            let at = after(job, play.first(n).replies);
            &&& plays(job, play.first(n))
            &&& fair ==> all_mind_owners(job, play.first(n))
            &&& play.first(n).before() == play.before()
            &&& after(job, play.replies) == job.next_at(at, play.replies[n])
            &&& match job.op_at(at) {
                Some(op) => sound_and(fair, op, play.first(n).end(), play.replies[n], play.end()),
                None => play.end() == play.first(n).end(),
            }
        }),
{
    let n = play.replies.len() - 1;
    let part = play.first(n);
    lemma_last(job, play);
    lemma_first(job, play, n);
    assert(op_number(job, play.replies, n) == job.op_at(after(job, play.replies.take(n))));
    if fair {
        assert forall|i: int| 0 <= i < part.replies.len() implies (#[trigger] op_number(
            job,
            part.replies,
            i,
        ) matches Some(op) ==> minds_owners(
            op,
            part.desks[i],
            part.replies[i],
            part.desks[i + 1],
        )) by {
            assert(part.replies.take(i) =~= play.replies.take(i));
            assert(op_number(job, play.replies, i) == op_number(job, part.replies, i));
        }
    }
}

// ---------------------------------------------------------------------------
// Contents and attributes of a copy
// ---------------------------------------------------------------------------

/// `n` has the mode of the source, when modes are kept.
pub open spec fn has_mode(job: Job, n: Option<Node>, origin: Option<Node>) -> bool {
    job.preserve.mode ==> match (n, origin) {
        (Some(x), Some(o)) => x.mode == o.mode,
        _ => false,
    }
}

/// `n` has the times of the source, when times are kept.
pub open spec fn has_times(job: Job, n: Option<Node>, origin: Option<Node>) -> bool {
    job.preserve.timestamps ==> match (n, origin) {
        (Some(x), Some(o)) => x.times == o.times,
        _ => false,
    }
}

/// `n` has the owner and the group of the source, when ownership is kept.
pub open spec fn has_owner(job: Job, n: Option<Node>, origin: Option<Node>) -> bool {
    job.preserve.ownership ==> match (n, origin) {
        (Some(x), Some(o)) => x.uid == o.uid && x.gid == o.gid,
        _ => false,
    }
}

/// At `at` the times of `l` are right.
spec fn past_times(at: At, l: Loc) -> bool {
    ||| at == At::Xattr(l)
    ||| l == Loc::Tmp && (at is SourceSum || at is CopySum || at is Publishing)
    ||| l == Loc::Dst && at == At::Finished(Outcome::Copied)
}

/// At `at` the mode of `l` is right.
spec fn past_mode(at: At, l: Loc) -> bool {
    past_times(at, l) || (at matches At::Times { at: m, .. } && m == l)
}

/// At `at` the owner of `l` is right.
spec fn past_owner(at: At, l: Loc) -> bool {
    past_mode(at, l) || (at matches At::Mode { at: m, .. } && m == l)
}

/// Steps are passed over only where there is nothing to keep.
proof fn lemma_passed_over(job: Job, l: Loc)
    requires
        l != Loc::Src,
    ensures
        past_owner(job.attributes(l), l) ==> !job.preserve.ownership,
        past_mode(job.attributes(l), l) ==> !job.preserve.mode,
        past_times(job.attributes(l), l) ==> !job.preserve.timestamps,
        forall|f: Facts| past_mode(#[trigger] job.owned(l, f), l) ==> !job.preserve.mode,
        forall|f: Facts| past_times(#[trigger] job.owned(l, f), l) ==> !job.preserve.timestamps,
        forall|f: Facts| past_times(#[trigger] job.moded(l, f), l) ==> !job.preserve.timestamps,
{
    reveal(Job::attributes);
    reveal(Job::owned);
    reveal(Job::moded);
    reveal(Job::timed);
    reveal(Job::dressed);
}

/// What holds while attributes are given to `l`.
spec fn dressed_well(fair: bool, job: Job, at: At, d: Desk, l: Loc) -> bool {
    &&& gives_attributes(at, l) && model_of(at) is Some ==> d.origin is Some && describes(
        model_of(at).unwrap(),
        d.origin.unwrap(),
    )
    &&& past_owner(at, l) ==> (fair ==> has_owner(job, d.at(l), d.origin))
    &&& past_mode(at, l) ==> has_mode(job, d.at(l), d.origin)
    &&& past_times(at, l) ==> has_times(job, d.at(l), d.origin)
}

/// A place that can be given attributes.
spec fn is_there(d: Desk, l: Loc) -> bool {
    d.at(l) is Some && !is_link(d.at(l))
}

/// A step that gives attributes.
proof fn lemma_dressing_step(fair: bool, job: Job, at: At, a: Desk, reply: Reply, b: Desk, l: Loc)
    requires
        l != Loc::Src,
        job.keeps_reached(),
        gives_attributes(at, l),
        is_there(a, l),
        dressed_well(fair, job, at, a, l),
        sound_and(fair, job.op_at(at).unwrap(), a, reply, b),
    ensures
        dressed_well(fair, job, job.next_at(at, reply), b, l),
        same_contents(a.at(l), b.at(l)),
        is_there(b, l),
        b.origin == a.origin,
        l == Loc::Tmp ==> b.dst == a.dst,
{
    lemma_dressing(job, l);
    lemma_passed_over(job, l);
}

/// At `at` the temporary file is filled.
spec fn is_filled(at: At) -> bool {
    at is Permissions || gives_attributes(at, Loc::Tmp) || at is SourceSum || at is CopySum || at
        is Publishing
}

/// What holds while a file is copied.
spec fn file_well(fair: bool, job: Job, at: At, d: Desk) -> bool {
    &&& dressed_well(fair, job, at, d, Loc::Tmp)
    &&& is_filled(at) ==> holds_the_source(d.tmp, d.origin)
    &&& at == At::Finished(Outcome::Copied) ==> {
        &&& holds_the_source(d.dst, d.origin)
        &&& fair ==> has_owner(job, d.dst, d.origin)
        &&& has_mode(job, d.dst, d.origin)
        &&& has_times(job, d.dst, d.origin)
    }
}

proof fn lemma_file_making(fair: bool, job: Job, at: At, a: Desk, reply: Reply, b: Desk)
    requires
        job.copies_data(),
        possible(job, at),
        makes_file(at),
        file_well(fair, job, at, a),
        sound_and(fair, job.op_at(at).unwrap(), a, reply, b),
    ensures
        file_well(fair, job, job.next_at(at, reply), b),
        b.origin == a.origin,
{
    lemma_dressing(job, Loc::Tmp);
    lemma_passed_over(job, Loc::Tmp);
}

/// Only a rename touches the source.
proof fn lemma_source_stays(op: Op, a: Desk, reply: Reply, b: Desk)
    requires
        sound(op, a, reply, b),
        !(op is Rename),
    ensures
        b.src == a.src,
        b.origin == a.origin,
{
}

/// Nothing is filled or finished by the steps before the bytes go through.
proof fn lemma_file_opens(job: Job, at: At, reply: Reply)
    requires
        job.copies_data(),
        possible(job, at),
        !makes_file(at),
        !makes_attributes(at),
    ensures
        !is_filled(job.next_at(at, reply)),
        !past_owner(job.next_at(at, reply), Loc::Tmp),
        job.next_at(at, reply) == At::Finished(Outcome::Copied) ==> at == At::Finished(
            Outcome::Copied,
        ),
{
    lemma_opening(job);
}

proof fn lemma_file_rest(fair: bool, job: Job, at: At, a: Desk, reply: Reply, b: Desk)
    requires
        job.copies_data(),
        possible(job, at),
        !makes_file(at),
        !makes_attributes(at),
        file_well(fair, job, at, a),
        match job.op_at(at) {
            Some(op) => sound_and(fair, op, a, reply, b),
            None => b == a,
        },
    ensures
        file_well(fair, job, job.next_at(at, reply), b),
        b.origin == a.origin,
{
    lemma_file_opens(job, at, reply);
    if let Some(op) = job.op_at(at) {
        lemma_source_stays(op, a, reply, b);
    }
}

proof fn lemma_file_step(fair: bool, job: Job, at: At, a: Desk, reply: Reply, b: Desk)
    requires
        job.copies_data(),
        possible(job, at),
        file_well(fair, job, at, a),
        match job.op_at(at) {
            Some(op) => sound_and(fair, op, a, reply, b),
            None => b == a,
        },
    ensures
        file_well(fair, job, job.next_at(at, reply), b),
        b.origin == a.origin,
{
    if makes_attributes(at) {
        assert(gives_attributes(at, Loc::Tmp));
        lemma_dressing_step(fair, job, at, a, reply, b, Loc::Tmp);
        lemma_dressing(job, Loc::Tmp);
    } else if makes_file(at) {
        lemma_file_making(fair, job, at, a, reply, b);
    } else {
        lemma_file_rest(fair, job, at, a, reply, b);
    }
}

proof fn lemma_file_run(fair: bool, job: Job, play: Play)
    requires
        job.copies_data(),
        plays(job, play),
        fair ==> all_mind_owners(job, play),
    ensures
        file_well(fair, job, after(job, play.replies), play.end()),
        play.end().origin == play.before().origin,
    decreases play.replies.len(),
{
    if play.replies.len() > 0 {
        let n = play.replies.len() - 1;
        let part = play.first(n);
        lemma_last_and(fair, job, play);
        lemma_file_run(fair, job, part);
        lemma_possible(job, part.replies);
        lemma_file_step(fair, job, after(job, part.replies), part.end(), play.replies[n], play.end());
    }
}

/// A file that was copied has the contents of its source, and its mode, its
/// times, and its owner and group where these are kept.
pub proof fn a_copy_is_like_its_source(job: Job, play: Play)
    requires
        job.copies_data(),
        plays(job, play),
        after(job, play.replies) == At::Finished(Outcome::Copied),
    ensures
        holds_the_source(play.end().dst, play.before().origin),
        all_mind_owners(job, play) ==> has_owner(job, play.end().dst, play.before().origin),
        has_mode(job, play.end().dst, play.before().origin),
        has_times(job, play.end().dst, play.before().origin),
{
    lemma_file_run(all_mind_owners(job, play), job, play);
}

/// A directory that was given its attributes has the owner and group, the mode
/// and the times of its source, where these are kept, and is still a directory.
pub proof fn a_dressed_directory_is_like_its_source(job: Job, play: Play)
    requires
        job.work == Work::Dir,
        plays(job, play),
        play.before().dst matches Some(n) && n.kind == FileKind::Dir,
    ensures
        play.end().origin == play.before().origin,
        play.end().dst matches Some(n) && n.kind == FileKind::Dir,
        after(job, play.replies) == At::Finished(Outcome::Copied) ==> {
            &&& all_mind_owners(job, play) ==> has_owner(
                job,
                play.end().dst,
                play.before().origin,
            )
            &&& has_mode(job, play.end().dst, play.before().origin)
            &&& has_times(job, play.end().dst, play.before().origin)
        },
{
    lemma_dir_run(all_mind_owners(job, play), job, play);
}

proof fn lemma_dir_run(fair: bool, job: Job, play: Play)
    requires
        job.work == Work::Dir,
        plays(job, play),
        fair ==> all_mind_owners(job, play),
        play.before().dst matches Some(n) && n.kind == FileKind::Dir,
    ensures
        ({
            let at = after(job, play.replies);
            &&& gives_attributes(at, Loc::Dst) || at is Finished
            &&& dressed_well(fair, job, at, play.end(), Loc::Dst)
        }),
        play.end().origin == play.before().origin,
        same_contents(play.before().dst, play.end().dst),
    decreases play.replies.len(),
{
    lemma_dressing(job, Loc::Dst);
    lemma_passed_over(job, Loc::Dst);
    if play.replies.len() > 0 {
        let n = play.replies.len() - 1;
        let part = play.first(n);
        lemma_last_and(fair, job, play);
        lemma_dir_run(fair, job, part);
        let at = after(job, part.replies);
        if gives_attributes(at, Loc::Dst) {
            lemma_dressing_step(fair, job, at, part.end(), play.replies[n], play.end(), Loc::Dst);
        }
    }
}

/// At `at` the link is there.
spec fn is_relinked(at: At) -> bool {
    at is LinkAttrLook || at is LinkOwnerLook || at is LinkOwner || at is LinkTimes || at
        == At::Finished(Outcome::Copied)
}

/// The places that the run of a link comes to.
spec fn is_linking(at: At) -> bool {
    undecided(at) || at is BackupLook || at is BackupList || at is SettingAside || at is Parent
        || makes_link(at) || at is Finished
}

/// What was seen at the source, where a link is given its attributes.
spec fn link_model_of(at: At) -> Option<Facts> {
    match at {
        At::LinkOwnerLook(f) | At::LinkOwner(f) | At::LinkTimes(f) => Some(f),
        _ => None,
    }
}

/// What holds while a link is copied.
spec fn link_well(fair: bool, job: Job, at: At, d: Desk) -> bool {
    &&& is_relinked(at) ==> leads_like(d.dst, d.src)
    &&& link_model_of(at) matches Some(f) ==> d.src is Some && describes(f, d.src.unwrap())
    &&& (at is LinkTimes || at == At::Finished(Outcome::Copied)) && fair ==> has_owner(job, d.dst, d.src)
}

proof fn lemma_link_step(fair: bool, job: Job, at: At, a: Desk, reply: Reply, b: Desk)
    requires
        job.work == Work::Symlink,
        is_linking(at),
        link_well(fair, job, at, a),
        match job.op_at(at) {
            Some(op) => sound_and(fair, op, a, reply, b),
            None => b == a,
        },
    ensures
        is_linking(job.next_at(at, reply)),
        link_well(fair, job, job.next_at(at, reply), b),
        b.src == a.src,
        job.preserve.timestamps && job.next_at(at, reply) == At::Finished(Outcome::Copied) && at
            != At::Finished(Outcome::Copied) ==> at is LinkTimes && (fair && reply == Reply::Done
            ==> has_times(job, b.dst, b.src)),
{
    reveal(Job::allowed);
    reveal(Job::not_present);
    reveal(Job::saved);
    reveal(Job::cleared_early);
    reveal(Job::housed);
}

/// The system would not give the link its times.
pub open spec fn times_refused(job: Job, rs: Seq<Reply>) -> bool {
    exists|i: int|
        0 <= i < rs.len() && (#[trigger] op_number(job, rs, i) matches Some(op) && op
            is SetLinkTimes) && rs[i] != Reply::Done
}

proof fn lemma_link_run(fair: bool, job: Job, play: Play)
    requires
        job.work == Work::Symlink,
        plays(job, play),
        fair ==> all_mind_owners(job, play),
    ensures
        is_linking(after(job, play.replies)),
        link_well(fair, job, after(job, play.replies), play.end()),
        play.end().src == play.before().src,
        fair && after(job, play.replies) == At::Finished(Outcome::Copied) ==> has_times(
            job,
            play.end().dst,
            play.end().src,
        ) || times_refused(job, play.replies),
    decreases play.replies.len(),
{
    if play.replies.len() > 0 {
        let n = play.replies.len() - 1;
        let part = play.first(n);
        lemma_last_and(fair, job, play);
        lemma_link_run(fair, job, part);
        let at = after(job, part.replies);
        lemma_link_step(fair, job, at, part.end(), play.replies[n], play.end());
        if times_refused(job, part.replies) {
            let i = choose|i: int|
                0 <= i < n && (#[trigger] op_number(job, part.replies, i) matches Some(op) && op
                    is SetLinkTimes) && part.replies[i] != Reply::Done;
            assert(part.replies.take(i) =~= play.replies.take(i));
            assert(op_number(job, play.replies, i) == op_number(job, part.replies, i));
        }
        assert(op_number(job, play.replies, n) == job.op_at(at));
    }
}

/// A link that was copied leads where the one at the source leads, and has its
/// owner and group, and, unless the system would not give them, its times, where
/// these are kept.
pub proof fn a_copied_link_leads_like_its_source(job: Job, play: Play)
    requires
        job.work == Work::Symlink,
        plays(job, play),
        after(job, play.replies) == At::Finished(Outcome::Copied),
    ensures
        leads_like(play.end().dst, play.before().src),
        all_mind_owners(job, play) ==> {
            &&& has_owner(job, play.end().dst, play.before().src)
            &&& has_times(job, play.end().dst, play.before().src) || times_refused(job, play.replies)
        },
{
    lemma_link_run(all_mind_owners(job, play), job, play);
}

// ---------------------------------------------------------------------------
// What is made at its final name
// ---------------------------------------------------------------------------

/// The job gives attributes under the final name: to a FIFO, to what was read
/// as a stream, or to a file of which nothing but attributes is copied.
pub open spec fn dresses_in_place(job: Job) -> bool {
    ||| job.work == Work::Fifo || job.work == Work::Special
    ||| job.work == Work::File && job.mode == CopyMode::Copy && job.attributes_only
}

/// What stands at the destination once the job is through.
pub open spec fn is_made(job: Job, n: Option<Node>, origin: Option<Node>) -> bool {
    match job.work {
        Work::Fifo => n matches Some(x) && x.kind == FileKind::Fifo,
        Work::Special => holds_the_source(n, origin),
        _ => n is Some && !is_link(n),
    }
}

/// What holds while such a job runs.
spec fn placed_well(fair: bool, job: Job, at: At, d: Desk) -> bool {
    &&& dressed_well(fair, job, at, d, Loc::Dst)
    &&& gives_attributes(at, Loc::Dst) || at == At::Finished(Outcome::Copied) ==> is_made(
        job,
        d.dst,
        d.origin,
    )
    &&& at is Publishing ==> holds_the_source(d.tmp, d.origin)
    &&& job.work == Work::File && !(at is Finished) ==> !is_link(d.dst)
    &&& !(at is Linking || at is Symlinking)
    &&& job.work == Work::Fifo ==> !(at is CreateLook || at is Creating)
    &&& job.work == Work::File ==> !(at is FifoMaking)
    &&& (at is ClearLook || at is ClearFile || at is ClearTree) && job.work == Work::File
        ==> !is_late(at)
}

/// What is in the way is removed after the directory of the destination is
/// made.
spec fn is_late(at: At) -> bool {
    match at {
        At::ClearLook { early } | At::ClearFile { early } | At::ClearTree { early } => !early,
        _ => false,
    }
}

proof fn lemma_placed_stages(job: Job)
    requires
        dresses_in_place(job),
    ensures
        ({
            let fine = |at: At|
                !(at is Linking || at is Symlinking || at is Publishing || at is FifoMaking || at
                    is Creating || at == At::Finished(Outcome::Copied)) && (job.work == Work::Fifo
                    ==> !(at is CreateLook)) && (job.work == Work::File ==> !is_late(at));
            &&& fine(job.housed())
            &&& fine(job.cleared_early())
            &&& fine(job.saved())
            &&& fine(job.not_present())
            &&& fine(job.allowed())
        }),
{
    reveal(Job::allowed);
    reveal(Job::not_present);
    reveal(Job::saved);
    reveal(Job::cleared_early);
    reveal(Job::housed);
}

/// At `at` the thing itself is being made.
spec fn makes_in_place_at(at: At) -> bool {
    at is CreateLook || at is Creating || at is FifoMaking || at is Transferring || at is Publishing
        || at is Discarding
}

proof fn lemma_placed_attributes(fair: bool, job: Job, at: At, a: Desk, reply: Reply, b: Desk)
    requires
        dresses_in_place(job),
        possible(job, at),
        placed_well(fair, job, at, a),
        gives_attributes(at, Loc::Dst),
        match job.op_at(at) {
            Some(op) => sound_and(fair, op, a, reply, b),
            None => b == a,
        },
    ensures
        placed_well(fair, job, job.next_at(at, reply), b),
        b.origin == a.origin,
{
    lemma_dressing(job, Loc::Dst);
    lemma_dressing_step(fair, job, at, a, reply, b, Loc::Dst);
}

proof fn lemma_placed_making(fair: bool, job: Job, at: At, a: Desk, reply: Reply, b: Desk)
    requires
        dresses_in_place(job),
        possible(job, at),
        placed_well(fair, job, at, a),
        makes_in_place_at(at),
        match job.op_at(at) {
            Some(op) => sound_and(fair, op, a, reply, b),
            None => b == a,
        },
    ensures
        placed_well(fair, job, job.next_at(at, reply), b),
        b.origin == a.origin,
{
    lemma_dressing(job, Loc::Dst);
    lemma_passed_over(job, Loc::Dst);
}

proof fn lemma_placed_rest(fair: bool, job: Job, at: At, a: Desk, reply: Reply, b: Desk)
    requires
        dresses_in_place(job),
        possible(job, at),
        placed_well(fair, job, at, a),
        !makes_in_place_at(at),
        !makes_attributes(at),
        match job.op_at(at) {
            Some(op) => sound_and(fair, op, a, reply, b),
            None => b == a,
        },
    ensures
        placed_well(fair, job, job.next_at(at, reply), b),
        b.origin == a.origin,
{
    lemma_opening(job);
    lemma_placed_stages(job);
}

proof fn lemma_placed_step(fair: bool, job: Job, at: At, a: Desk, reply: Reply, b: Desk)
    requires
        dresses_in_place(job),
        possible(job, at),
        placed_well(fair, job, at, a),
        match job.op_at(at) {
            Some(op) => sound_and(fair, op, a, reply, b),
            None => b == a,
        },
    ensures
        placed_well(fair, job, job.next_at(at, reply), b),
        b.origin == a.origin,
{
    if makes_attributes(at) {
        lemma_placed_attributes(fair, job, at, a, reply, b);
    } else if makes_in_place_at(at) {
        lemma_placed_making(fair, job, at, a, reply, b);
    } else {
        lemma_placed_rest(fair, job, at, a, reply, b);
    }
}

proof fn lemma_placed_run(fair: bool, job: Job, play: Play)
    requires
        dresses_in_place(job),
        plays(job, play),
        fair ==> all_mind_owners(job, play),
        job.work == Work::File ==> !is_link(play.before().dst),
    ensures
        placed_well(fair, job, after(job, play.replies), play.end()),
        play.end().origin == play.before().origin,
    decreases play.replies.len(),
{
    if play.replies.len() > 0 {
        let n = play.replies.len() - 1;
        let part = play.first(n);
        lemma_last_and(fair, job, play);
        lemma_placed_run(fair, job, part);
        lemma_possible(job, part.replies);
        lemma_placed_step(fair, job, after(job, part.replies), part.end(), play.replies[n], play.end());
    }
}

/// A FIFO, a stream and a file of which only the attributes are copied end up
/// with the owner and group, the mode and the times of the source, where these
/// are kept; a stream with its contents too.
pub proof fn what_is_made_in_place_is_like_its_source(job: Job, play: Play)
    requires
        dresses_in_place(job),
        plays(job, play),
        job.work == Work::File ==> !is_link(play.before().dst),
        after(job, play.replies) == At::Finished(Outcome::Copied),
    ensures
        is_made(job, play.end().dst, play.before().origin),
        all_mind_owners(job, play) ==> has_owner(job, play.end().dst, play.before().origin),
        has_mode(job, play.end().dst, play.before().origin),
        has_times(job, play.end().dst, play.before().origin),
{
    lemma_placed_run(all_mind_owners(job, play), job, play);
}

/// With `--preserve=ownership`, whatever counts as copied belongs to the owner
/// and to the group of its source: a file, a link, a FIFO, a stream and a
/// directory, as far as changes of owner that are reported as done are done.
pub proof fn kept_owners_are_those_of_the_source(job: Job, play: Play)
    requires
        job.preserve.ownership,
        job.work == Work::File && job.mode == CopyMode::Copy || job.work == Work::Symlink || job.work
            == Work::Fifo || job.work == Work::Special || job.work == Work::Dir,
        job.work == Work::Dir ==> (play.before().dst matches Some(n) && n.kind == FileKind::Dir),
        job.work == Work::File && job.attributes_only ==> !is_link(play.before().dst),
        plays(job, play),
        all_mind_owners(job, play),
        after(job, play.replies) == At::Finished(Outcome::Copied),
    ensures
        ({
            let source = if job.work == Work::Symlink {
                play.before().src
            } else {
                play.before().origin
            };
            match (source, play.end().dst) {
                (Some(from), Some(to)) => to.uid == from.uid && to.gid == from.gid,
                _ => false,
            }
        }),
{
    if job.copies_data() {
        a_copy_is_like_its_source(job, play);
    } else if job.work == Work::Symlink {
        a_copied_link_leads_like_its_source(job, play);
    } else if job.work == Work::Dir {
        a_dressed_directory_is_like_its_source(job, play);
    } else {
        what_is_made_in_place_is_like_its_source(job, play);
    }
}

// ---------------------------------------------------------------------------
// The same copy again
// ---------------------------------------------------------------------------

/// What stands at the destination counts as an earlier copy: a file with the
/// size of the source, or a link.
pub open spec fn stands_there(job: Job, d: Desk) -> bool {
    if job.work == Work::Symlink {
        is_link(d.dst)
    } else {
        d.seen(Loc::Dst, true) matches Some(n) && n.kind == FileKind::File && size_of_node(n)
            == job.size
    }
}

proof fn lemma_kept_run(job: Job, play: Play)
    requires
        job.work == Work::File || job.work == Work::Symlink,
        plays(job, play),
    ensures
        untouched(after(job, play.replies)) ==> play.end() == play.before(),
        after(job, play.replies) == At::Finished(Outcome::AlreadyPresent) ==> stands_there(
            job,
            play.end(),
        ),
    decreases play.replies.len(),
{
    if play.replies.len() > 0 {
        let n = play.replies.len() - 1;
        let part = play.first(n);
        let at = after(job, part.replies);
        lemma_last(job, play);
        lemma_kept_run(job, part);
        if !untouched(at) {
            lemma_untouched_step(job, at, play.replies[n]);
        } else {
            lemma_opening(job);
        }
    }
}

/// What a copy without a failure leaves counts as an earlier copy, as long as
/// the source has the size that it was planned with.
pub proof fn a_copy_stands_there(job: Job, play: Play)
    requires
        job.copies_data() || job.work == Work::Symlink,
        plays(job, play),
        job.copies_data() ==> (play.before().origin matches Some(o) ==> size_of_node(o) == job.size),
        after(job, play.replies) == At::Finished(Outcome::Copied) || after(job, play.replies)
            == At::Finished(Outcome::AlreadyPresent),
    ensures
        stands_there(job, play.end()),
{
    lemma_kept_run(job, play);
    if job.copies_data() {
        lemma_file_run(false, job, play);
    } else {
        lemma_link_run(false, job, play);
    }
}

/// With `--resume`, a run that finds an earlier copy changes nothing, and ends
/// with the word that it was there already.
pub proof fn an_earlier_copy_is_left_alone(job: Job, play: Play)
    requires
        job.work == Work::File || job.work == Work::Symlink,
        job.resume,
        job.overwrite == Overwrite::Clobber,
        plays(job, play),
        stands_there(job, play.before()),
    ensures
        play.end() == play.before(),
        after(job, play.replies) matches At::Finished(o) ==> o == Outcome::AlreadyPresent,
{
    lemma_found_run(job, play);
}

proof fn lemma_found_run(job: Job, play: Play)
    requires
        job.work == Work::File || job.work == Work::Symlink,
        job.resume,
        job.overwrite == Overwrite::Clobber,
        plays(job, play),
        stands_there(job, play.before()),
    ensures
        play.end() == play.before(),
        ({
            let at = after(job, play.replies);
            at is DirCheck || at is Exists || at is Resuming || at == At::Finished(
                Outcome::AlreadyPresent,
            )
        }),
    decreases play.replies.len(),
{
    reveal(Job::allowed);
    if play.replies.len() > 0 {
        let n = play.replies.len() - 1;
        lemma_last(job, play);
        lemma_found_run(job, play.first(n));
    }
}

} // verus!
