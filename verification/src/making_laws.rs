//! What stands at the destination before something is made there, and after.

use vstd::prelude::*;

use crate::disk::{is_link, plays, same_contents, sound, Desk, Node, Play};
use crate::disk_laws::lemma_last;
use crate::engine::{At, Facts, Job, Loc, Op, Outcome, Reply, Route, Work};
use crate::engine_laws::{
    after, gives_attributes, in_the_making, lemma_dressing, lemma_opening, lemma_possible,
    makes_attributes, makes_file, makes_link, op_number, possible, saves,
};
use crate::options::CopyMode;
use crate::plan::FileKind;

verus! {

// ---------------------------------------------------------------------------
// What is in the way
// ---------------------------------------------------------------------------

/// The destination is removed before it is written.
pub open spec fn removes(job: Job) -> bool {
    job.work == Work::File && job.remove_destination
}

/// What is in the way is dealt with once the directory of the destination is
/// there.
spec fn is_late(at: At) -> bool {
    match at {
        At::ClearLook { early } | At::ClearFile { early } | At::ClearTree { early } => !early,
        _ => false,
    }
}

/// What is at the destination is saved by now.
spec fn past_saving(at: At) -> bool {
    at is Parent || at is ClearLook || at is ClearFile || at is ClearTree || at is LinkRead || at
        is LinkLook || at is LinkClear || at is CreateLook || at is Renaming || in_the_making(at)
}

/// What is at the destination is removed by now.
spec fn past_removing(at: At) -> bool {
    at is Parent || is_late(at) || at is CreateLook || in_the_making(at)
}

/// Something is made of nothing.
spec fn makes_of_nothing(at: At) -> bool {
    at is Linking || at is Symlinking || at is FifoMaking || at is Relinking || at is Creating
}

/// Nothing is in the way where nothing may be.
spec fn is_free(job: Job, at: At, d: Desk) -> bool {
    &&& makes_of_nothing(at) ==> d.dst is None
    &&& saves(job) && past_saving(at) ==> d.dst is None
    &&& removes(job) && past_removing(at) ==> d.dst is None
}

proof fn lemma_free_making(job: Job, at: At, a: Desk, reply: Reply, b: Desk)
    requires
        possible(job, at),
        job.work != Work::Dir,
        makes_attributes(at) || makes_file(at),
        is_free(job, at, a),
        sound(job.op_at(at).unwrap(), a, reply, b),
    ensures
        is_free(job, job.next_at(at, reply), b),
{
    lemma_dressing(job, Loc::Tmp);
    lemma_dressing(job, Loc::Dst);
}

/// Something is made under the final name, or nothing more is done.
spec fn is_at_hand(at: At) -> bool {
    makes_link(at) || makes_of_nothing(at) || at is CreateLook || at is Discarding || at is Renaming
        || at is Finished
}

proof fn lemma_free_at_hand(job: Job, at: At, a: Desk, reply: Reply, b: Desk)
    requires
        possible(job, at),
        job.work != Work::Dir,
        is_at_hand(at),
        is_free(job, at, a),
        match job.op_at(at) {
            Some(op) => sound(op, a, reply, b),
            None => b == a,
        },
    ensures
        is_free(job, job.next_at(at, reply), b),
{
    lemma_dressing(job, Loc::Dst);
}

proof fn lemma_free_clearing(job: Job, at: At, a: Desk, reply: Reply, b: Desk)
    requires
        possible(job, at),
        job.work != Work::Dir,
        at is ClearLook || at is ClearFile || at is ClearTree || at is Parent,
        is_free(job, at, a),
        match job.op_at(at) {
            Some(op) => sound(op, a, reply, b),
            None => b == a,
        },
    ensures
        is_free(job, job.next_at(at, reply), b),
{
    reveal(Job::allowed);
    reveal(Job::not_present);
    reveal(Job::saved);
    reveal(Job::cleared_early);
    reveal(Job::housed);
}

proof fn lemma_free_rest(job: Job, at: At, a: Desk, reply: Reply, b: Desk)
    requires
        possible(job, at),
        job.work != Work::Dir,
        !makes_attributes(at) && !makes_file(at) && !is_at_hand(at),
        !(at is ClearLook || at is ClearFile || at is ClearTree || at is Parent),
        is_free(job, at, a),
        match job.op_at(at) {
            Some(op) => sound(op, a, reply, b),
            None => b == a,
        },
    ensures
        is_free(job, job.next_at(at, reply), b),
{
    reveal(Job::allowed);
    reveal(Job::not_present);
    reveal(Job::saved);
    reveal(Job::cleared_early);
    reveal(Job::housed);
}

proof fn lemma_free_run(job: Job, play: Play)
    requires
        job.work != Work::Dir,
        plays(job, play),
    ensures
        is_free(job, after(job, play.replies), play.end()),
    decreases play.replies.len(),
{
    if play.replies.len() > 0 {
        let n = play.replies.len() - 1;
        let part = play.first(n);
        let at = after(job, part.replies);
        lemma_last(job, play);
        lemma_free_run(job, part);
        lemma_possible(job, part.replies);
        if makes_attributes(at) || makes_file(at) {
            lemma_free_making(job, at, part.end(), play.replies[n], play.end());
        } else if is_at_hand(at) {
            lemma_free_at_hand(job, at, part.end(), play.replies[n], play.end());
        } else if at is ClearLook || at is ClearFile || at is ClearTree || at is Parent {
            lemma_free_clearing(job, at, part.end(), play.replies[n], play.end());
        } else {
            lemma_free_rest(job, at, part.end(), play.replies[n], play.end());
        }
    }
}

/// A link, a FIFO and an empty file are made only where nothing is, and with
/// `--backup` or, for a file, `--remove-destination` nothing is there any more
/// when a file takes its name.
pub proof fn nothing_is_lost_by_writing(job: Job, play: Play)
    requires
        job.work != Work::Dir,
        plays(job, play),
    ensures
        job.op_at(after(job, play.replies)) matches Some(op) ==> {
            let backed_up = saves(job);
            let removed = job.work == Work::File && job.remove_destination;
            &&& op is HardLink || op is SymlinkToSource || op is MakeFifo || op is Relink || op
                is CreateEmpty ==> play.end().dst is None
            &&& (op is Publish || op is Transfer) && (backed_up || removed) ==> play.end().dst
                is None
            &&& op is Rename && backed_up ==> play.end().dst is None
        },
{
    lemma_free_run(job, play);
}

// ---------------------------------------------------------------------------
// Links in place of copies
// ---------------------------------------------------------------------------

/// The job makes a hard link to its source.
pub open spec fn links_hard(job: Job) -> bool {
    job.work == Work::HardLink || job.work == Work::File && job.mode == CopyMode::Link
}

/// The job makes a symbolic link to its source.
pub open spec fn links_soft(job: Job) -> bool {
    job.work == Work::File && job.mode == CopyMode::Symlink
}

/// What holds while a link is made in place of a copy.
spec fn linked_well(job: Job, at: At, d: Desk, src: Option<Node>) -> bool {
    &&& d.src == src
    &&& !gives_attributes(at, Loc::Dst) && !gives_attributes(at, Loc::Tmp) && !gives_attributes(
        at,
        Loc::Src,
    )
    &&& !makes_file(at) && !makes_link(at) && !(at is CreateLook || at is Creating || at
        is FifoMaking || at is Renaming || at is Discarding)
    &&& at is Linking ==> links_hard(job)
    &&& at is Symlinking ==> links_soft(job) && !job.stray_link
    &&& is_late(at) && links_soft(job) ==> !job.stray_link
    &&& at == At::Finished(Outcome::Copied) ==> if links_hard(job) {
        d.dst == src
    } else {
        is_link(d.dst) && !job.stray_link
    }
}

proof fn lemma_linked_step(job: Job, at: At, a: Desk, reply: Reply, b: Desk, src: Option<Node>)
    requires
        links_hard(job) || links_soft(job),
        linked_well(job, at, a, src),
        match job.op_at(at) {
            Some(op) => sound(op, a, reply, b),
            None => b == a,
        },
    ensures
        linked_well(job, job.next_at(at, reply), b, src),
{
    reveal(Job::allowed);
    reveal(Job::not_present);
    reveal(Job::saved);
    reveal(Job::cleared_early);
    reveal(Job::housed);
}

proof fn lemma_linked_run(job: Job, play: Play)
    requires
        links_hard(job) || links_soft(job),
        plays(job, play),
    ensures
        linked_well(job, after(job, play.replies), play.end(), play.before().src),
    decreases play.replies.len(),
{
    if play.replies.len() > 0 {
        let n = play.replies.len() - 1;
        let part = play.first(n);
        lemma_last(job, play);
        lemma_linked_run(job, part);
        lemma_linked_step(
            job,
            after(job, part.replies),
            part.end(),
            play.replies[n],
            play.end(),
            play.before().src,
        );
    }
}

/// With `-l`, and for the second name of a file, the destination becomes the
/// file that the source is; with `-s` it becomes a link, unless that would lead
/// nowhere. Nothing is copied then.
pub proof fn links_stand_in_for_copies(job: Job, play: Play)
    requires
        links_hard(job) || links_soft(job),
        plays(job, play),
    ensures
        after(job, play.replies) == At::Finished(Outcome::Copied) ==> {
            &&& links_hard(job) ==> play.end().dst == play.before().src
            &&& links_soft(job) ==> is_link(play.end().dst) && !job.stray_link
        },
        job.op_at(after(job, play.replies)) matches Some(op) ==> !(op is Transfer || op is Publish
            || op is CreateEmpty || op is Relink || op is MakeFifo || op is Rename),
{
    lemma_linked_run(job, play);
}

// ---------------------------------------------------------------------------
// Attributes only
// ---------------------------------------------------------------------------

/// The job copies nothing but attributes, onto what is there.
pub open spec fn only_dresses(job: Job) -> bool {
    job.work == Work::File && job.mode == CopyMode::Copy && job.attributes_only && !saves(job)
        && !job.remove_destination
}

/// What holds while attributes alone are copied.
spec fn kept_well(job: Job, at: At, d: Desk, dst: Option<Node>) -> bool {
    &&& !gives_attributes(at, Loc::Tmp) && !gives_attributes(at, Loc::Src)
    &&& !makes_file(at) && !makes_link(at) && !(at is Linking || at is Symlinking || at
        is FifoMaking || at is Renaming || at is Discarding)
    &&& !(at is ClearLook || at is ClearFile || at is ClearTree || at is BackupLook || at
        is BackupList || at is SettingAside)
    &&& at is Creating ==> dst is None
    &&& dst is Some ==> same_contents(dst, d.dst)
    &&& dst is None ==> if gives_attributes(at, Loc::Dst) || at == At::Finished(Outcome::Copied) {
        d.dst matches Some(n) && n.kind == FileKind::File && n.data.len() == 0
    } else {
        at is Finished || d.dst is None
    }
}

proof fn lemma_kept_attributes(job: Job, at: At, a: Desk, reply: Reply, b: Desk, dst: Option<Node>)
    requires
        only_dresses(job),
        kept_well(job, at, a, dst),
        makes_attributes(at),
        match job.op_at(at) {
            Some(op) => sound(op, a, reply, b),
            None => b == a,
        },
    ensures
        kept_well(job, job.next_at(at, reply), b, dst),
{
    lemma_dressing(job, Loc::Dst);
}

proof fn lemma_kept_making(job: Job, at: At, a: Desk, reply: Reply, b: Desk, dst: Option<Node>)
    requires
        only_dresses(job),
        kept_well(job, at, a, dst),
        at is CreateLook || at is Creating,
        match job.op_at(at) {
            Some(op) => sound(op, a, reply, b),
            None => b == a,
        },
    ensures
        kept_well(job, job.next_at(at, reply), b, dst),
{
    lemma_dressing(job, Loc::Dst);
}

proof fn lemma_kept_rest(job: Job, at: At, a: Desk, reply: Reply, b: Desk, dst: Option<Node>)
    requires
        only_dresses(job),
        kept_well(job, at, a, dst),
        !makes_attributes(at) && !(at is CreateLook || at is Creating),
        match job.op_at(at) {
            Some(op) => sound(op, a, reply, b),
            None => b == a,
        },
    ensures
        kept_well(job, job.next_at(at, reply), b, dst),
{
    reveal(Job::allowed);
    reveal(Job::not_present);
    reveal(Job::saved);
    reveal(Job::cleared_early);
    reveal(Job::housed);
}

proof fn lemma_kept_step(job: Job, at: At, a: Desk, reply: Reply, b: Desk, dst: Option<Node>)
    requires
        only_dresses(job),
        kept_well(job, at, a, dst),
        match job.op_at(at) {
            Some(op) => sound(op, a, reply, b),
            None => b == a,
        },
    ensures
        kept_well(job, job.next_at(at, reply), b, dst),
{
    if makes_attributes(at) {
        lemma_kept_attributes(job, at, a, reply, b, dst);
    } else if at is CreateLook || at is Creating {
        lemma_kept_making(job, at, a, reply, b, dst);
    } else {
        lemma_kept_rest(job, at, a, reply, b, dst);
    }
}

proof fn lemma_kept_run(job: Job, play: Play)
    requires
        only_dresses(job),
        plays(job, play),
    ensures
        kept_well(job, after(job, play.replies), play.end(), play.before().dst),
    decreases play.replies.len(),
{
    if play.replies.len() > 0 {
        let n = play.replies.len() - 1;
        let part = play.first(n);
        lemma_last(job, play);
        lemma_kept_run(job, part);
        lemma_kept_step(
            job,
            after(job, part.replies),
            part.end(),
            play.replies[n],
            play.end(),
            play.before().dst,
        );
    }
}

/// With `--attributes-only`, a file that is there keeps its contents, and one
/// that is not there is made empty.
pub proof fn contents_stay_when_attributes_are_copied(job: Job, play: Play)
    requires
        only_dresses(job),
        plays(job, play),
    ensures
        play.before().dst is Some ==> same_contents(play.before().dst, play.end().dst),
        play.before().dst is None && after(job, play.replies) == At::Finished(Outcome::Copied) ==> {
            play.end().dst matches Some(n) && n.kind == FileKind::File && n.data.len() == 0
        },
        job.op_at(after(job, play.replies)) matches Some(op) ==> !(op is Transfer || op is Publish),
{
    lemma_kept_run(job, play);
}

// ---------------------------------------------------------------------------
// The directory of the destination
// ---------------------------------------------------------------------------

/// At `at` something is being made.
spec fn is_making(at: At) -> bool {
    in_the_making(at) || makes_of_nothing(at) || makes_link(at) || is_late(at) || at is CreateLook
}

proof fn lemma_housed_step(job: Job, at: At, reply: Reply)
    requires
        possible(job, at),
        job.work != Work::Dir,
        job.has_parent,
        is_making(job.next_at(at, reply)),
    ensures
        is_making(at) || (at is Parent && reply == Reply::Done),
{
    lemma_dressing(job, Loc::Tmp);
    lemma_dressing(job, Loc::Dst);
    reveal(Job::allowed);
    reveal(Job::not_present);
    reveal(Job::saved);
    reveal(Job::cleared_early);
    reveal(Job::housed);
}

/// Whatever is made, the directory that it goes to was made before, where it
/// has one.
pub proof fn directories_are_made_first(job: Job, rs: Seq<Reply>)
    requires
        job.work != Work::Dir,
        job.has_parent,
        job.op_at(after(job, rs)) matches Some(op) && (op is Transfer || op is HardLink || op
            is SymlinkToSource || op is CreateEmpty || op is Relink || op is MakeFifo),
    ensures
        exists|i: int|
            0 <= i < rs.len() && #[trigger] op_number(job, rs, i) == Some(Op::MakeParent) && rs[i]
                == Reply::Done,
{
    lemma_housed(job, rs);
}

proof fn lemma_housed(job: Job, rs: Seq<Reply>)
    requires
        job.work != Work::Dir,
        job.has_parent,
        is_making(after(job, rs)),
    ensures
        exists|i: int|
            0 <= i < rs.len() && #[trigger] op_number(job, rs, i) == Some(Op::MakeParent) && rs[i]
                == Reply::Done,
    decreases rs.len(),
{
    let n = rs.len() - 1;
    let short = rs.drop_last();
    assert(short =~= rs.take(n));
    lemma_possible(job, short);
    let at = after(job, short);
    lemma_housed_step(job, at, rs.last());
    if is_making(at) {
        lemma_housed(job, short);
        let i = choose|i: int|
            0 <= i < short.len() && #[trigger] op_number(job, short, i) == Some(Op::MakeParent)
                && short[i] == Reply::Done;
        assert(short.take(i) =~= rs.take(i));
        assert(op_number(job, rs, i) == Some(Op::MakeParent));
    } else {
        assert(op_number(job, rs, n) == Some(Op::MakeParent));
    }
}

// ---------------------------------------------------------------------------
// Extended attributes
// ---------------------------------------------------------------------------

/// The job keeps the extended attributes of what its source leads to.
pub open spec fn keeps_xattrs(job: Job) -> bool {
    job.preserve.xattr && (job.copies_data() || job.work == Work::Fifo || job.work == Work::Special
        || job.work == Work::Dir || job.work == Work::File && job.mode == CopyMode::Copy)
}

/// The extended attributes of what the source leads to were copied.
pub open spec fn xattrs_copied(job: Job, rs: Seq<Reply>) -> bool {
    exists|i: int|
        0 <= i < rs.len() && (#[trigger] op_number(job, rs, i) matches Some(
            Op::CopyXattrs { at, follow },
        ) && follow && at == if job.copies_data() {
            Loc::Tmp
        } else {
            Loc::Dst
        }) && rs[i] == Reply::Done
}

/// At `at` the extended attributes are there.
spec fn past_xattr(job: Job, at: At) -> bool {
    ||| job.copies_data() && (at is SourceSum || at is CopySum || at is Publishing)
    ||| at == At::Finished(Outcome::Copied)
}

proof fn lemma_xattr_stages(job: Job, l: Loc)
    requires
        keeps_xattrs(job),
        l != Loc::Src,
        l == Loc::Tmp <==> job.copies_data(),
    ensures
        !past_xattr(job, job.timed(l)),
        forall|f: Facts| !past_xattr(job, #[trigger] job.moded(l, f)),
        forall|f: Facts| !past_xattr(job, #[trigger] job.owned(l, f)),
        !past_xattr(job, job.attributes(l)),
{
    reveal(Job::attributes);
    reveal(Job::owned);
    reveal(Job::moded);
    reveal(Job::timed);
    reveal(Job::dressed);
}

/// The places that a job which keeps extended attributes comes to on its way.
spec fn keeps_to_its_way(job: Job, at: At) -> bool {
    &&& !(at is Linking || at is Symlinking || makes_link(at))
    &&& is_late(at) ==> job.work == Work::Fifo
    &&& job.work == Work::Dir ==> makes_attributes(at) || at is Finished
}

spec fn is_dressed_or_filled(at: At) -> bool {
    makes_attributes(at) || makes_file(at) || at is CreateLook || at is Creating || at is FifoMaking
}

proof fn lemma_xattr_making(job: Job, at: At, reply: Reply)
    requires
        keeps_xattrs(job),
        possible(job, at),
        keeps_to_its_way(job, at),
        is_dressed_or_filled(at),
    ensures
        keeps_to_its_way(job, job.next_at(at, reply)),
        past_xattr(job, job.next_at(at, reply)) ==> past_xattr(job, at) || (at is Xattr && reply
            == Reply::Done),
{
    let l = if job.copies_data() {
        Loc::Tmp
    } else {
        Loc::Dst
    };
    lemma_dressing(job, l);
    lemma_xattr_stages(job, l);
}

proof fn lemma_xattr_rest(job: Job, at: At, reply: Reply)
    requires
        keeps_xattrs(job),
        possible(job, at),
        keeps_to_its_way(job, at),
        !is_dressed_or_filled(at),
    ensures
        keeps_to_its_way(job, job.next_at(at, reply)),
        past_xattr(job, job.next_at(at, reply)) ==> past_xattr(job, at) || (at is Xattr && reply
            == Reply::Done),
{
    reveal(Job::allowed);
    reveal(Job::not_present);
    reveal(Job::saved);
    reveal(Job::cleared_early);
    reveal(Job::housed);
}

proof fn lemma_xattr_step(job: Job, at: At, reply: Reply)
    requires
        keeps_xattrs(job),
        possible(job, at),
        keeps_to_its_way(job, at),
    ensures
        keeps_to_its_way(job, job.next_at(at, reply)),
        past_xattr(job, job.next_at(at, reply)) ==> past_xattr(job, at) || (at is Xattr && reply
            == Reply::Done),
{
    if is_dressed_or_filled(at) {
        lemma_xattr_making(job, at, reply);
    } else {
        lemma_xattr_rest(job, at, reply);
    }
}

proof fn lemma_xattr_run(job: Job, rs: Seq<Reply>)
    requires
        keeps_xattrs(job),
    ensures
        keeps_to_its_way(job, after(job, rs)),
        past_xattr(job, after(job, rs)) ==> xattrs_copied(job, rs),
    decreases rs.len(),
{
    if rs.len() > 0 {
        let n = rs.len() - 1;
        let short = rs.drop_last();
        let at = after(job, short);
        assert(short =~= rs.take(n));
        lemma_possible(job, short);
        lemma_xattr_run(job, short);
        lemma_xattr_step(job, at, rs.last());
        if past_xattr(job, after(job, rs)) {
            if past_xattr(job, at) {
                let i = choose|i: int|
                    0 <= i < short.len() && (#[trigger] op_number(job, short, i) matches Some(
                        Op::CopyXattrs { at, follow },
                    ) && follow && at == if job.copies_data() {
                        Loc::Tmp
                    } else {
                        Loc::Dst
                    }) && short[i] == Reply::Done;
                assert(short.take(i) =~= rs.take(i));
                assert(op_number(job, rs, i) == op_number(job, short, i));
            } else {
                assert(op_number(job, rs, n) == job.op_at(at));
                assert(gives_attributes(at, if job.copies_data() {
                    Loc::Tmp
                } else {
                    Loc::Dst
                }));
            }
        }
    } else {
        let l = if job.copies_data() {
            Loc::Tmp
        } else {
            Loc::Dst
        };
        lemma_dressing(job, l);
        lemma_xattr_stages(job, l);
    }
}

/// With `--preserve=xattr`, what counts as copied has got the extended
/// attributes of what the source leads to.
pub proof fn extended_attributes_are_copied(job: Job, rs: Seq<Reply>)
    requires
        keeps_xattrs(job),
        after(job, rs) == At::Finished(Outcome::Copied),
    ensures
        xattrs_copied(job, rs),
{
    lemma_xattr_run(job, rs);
}

// ---------------------------------------------------------------------------
// Permissions
// ---------------------------------------------------------------------------

/// At the reply number `i`, the temporary file got the permissions of the
/// source: by themselves, or by the system together with the bytes.
pub open spec fn permitted_at(job: Job, rs: Seq<Reply>, i: int) -> bool {
    ||| op_number(job, rs, i) == Some(Op::CopyPermissions) && rs[i] == Reply::Done
    ||| op_number(job, rs, i) == Some(Op::Transfer(Route::Fast)) && rs[i] is Copied
}

/// At `at` the temporary file has the permissions of the source.
spec fn past_permissions(at: At) -> bool {
    gives_attributes(at, Loc::Tmp) || at is SourceSum || at is CopySum || at is Publishing
}

proof fn lemma_permission_step(job: Job, at: At, reply: Reply)
    requires
        job.copies_data(),
        possible(job, at),
        past_permissions(job.next_at(at, reply)),
    ensures
        past_permissions(at) || (at is Permissions && reply == Reply::Done) || (at
            == At::Transferring(Route::Fast) && reply is Copied),
{
    lemma_dressing(job, Loc::Tmp);
    lemma_opening(job);
}

/// A file takes its name only with the permissions of its source, whichever way
/// its bytes went, and whether or not attributes are kept.
pub proof fn copies_have_the_permissions_of_their_source(job: Job, rs: Seq<Reply>)
    requires
        job.copies_data(),
        job.op_at(after(job, rs)) == Some(Op::Publish),
    ensures
        exists|i: int| 0 <= i < rs.len() && #[trigger] permitted_at(job, rs, i),
{
    lemma_permitted(job, rs);
}

proof fn lemma_permitted(job: Job, rs: Seq<Reply>)
    requires
        job.copies_data(),
        past_permissions(after(job, rs)),
    ensures
        exists|i: int| 0 <= i < rs.len() && #[trigger] permitted_at(job, rs, i),
    decreases rs.len(),
{
    let n = rs.len() - 1;
    let short = rs.drop_last();
    let at = after(job, short);
    assert(short =~= rs.take(n));
    lemma_possible(job, short);
    lemma_permission_step(job, at, rs.last());
    if past_permissions(at) {
        lemma_permitted(job, short);
        let i = choose|i: int| 0 <= i < short.len() && #[trigger] permitted_at(job, short, i);
        assert(short.take(i) =~= rs.take(i));
        assert(permitted_at(job, rs, i));
    } else {
        assert(permitted_at(job, rs, n));
    }
}

} // verus!
