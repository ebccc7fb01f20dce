//! What holds of the disk when runs share it, turn by turn, in whatever order.

use vstd::prelude::*;

use crate::copy::{
    attributes_come_after_all_writes, course_of, each_directory_is_dressed_once, job_of,
    the_course_leaves_nothing_out, CopyOptions, StepView,
};
use crate::copy_laws::{
    counted, jobs_do_not_depend_on_the_workers, merged, runs_of, sharing_the_work_changes_no_count,
    Done,
};
use crate::disk::{
    all_mind_owners, minds_owners, plays, size_of_node, sound, Desk, Node, Play,
};
use crate::disk_laws::{
    a_copy_stands_there, a_dressed_directory_is_like_its_source, an_earlier_copy_is_left_alone,
    has_mode, has_owner, has_times,
};
use crate::engine::{At, Facts, Job, Loc, Op, Outcome, Reply, Route, Run, Stamp, Times};
use crate::engine_laws::{after, op_number};
use crate::options::{nothing_kept, CopyMode, Overwrite};
use crate::plan::{EntryView, FileKind};
use crate::stats::{same_count, StatsView};

verus! {

// ---------------------------------------------------------------------------
// Names on a disk
// ---------------------------------------------------------------------------

/// The names that a run has to do with.
#[verifier::ext_equal]
pub struct Names {
    pub src: Seq<u8>,
    /// What is reached by the source.
    pub origin: Seq<u8>,
    pub dst: Seq<u8>,
    /// Where a link at the destination leads.
    pub beyond: Seq<u8>,
    pub tmp: Seq<u8>,
}

/// What a name stands for.
pub open spec fn node_at(disk: Map<Seq<u8>, Node>, p: Seq<u8>) -> Option<Node> {
    if disk.dom().contains(p) {
        Some(disk[p])
    } else {
        None
    }
}

/// The disk with `n` under the name `p`, or with nothing there.
pub open spec fn put(disk: Map<Seq<u8>, Node>, p: Seq<u8>, n: Option<Node>) -> Map<Seq<u8>, Node> {
    match n {
        Some(x) => disk.insert(p, x),
        None => disk.remove(p),
    }
}

/// What the names of a run stand for on a disk.
pub open spec fn desk_on(disk: Map<Seq<u8>, Node>, names: Names) -> Desk {
    Desk {
        src: node_at(disk, names.src),
        origin: node_at(disk, names.origin),
        dst: node_at(disk, names.dst),
        beyond: node_at(disk, names.beyond),
        tmp: node_at(disk, names.tmp),
    }
}

/// The disk with what a run left under its own names.
pub open spec fn put_back(disk: Map<Seq<u8>, Node>, names: Names, desk: Desk) -> Map<
    Seq<u8>,
    Node,
> {
    put(put(disk, names.dst, desk.dst), names.tmp, desk.tmp)
}

/// The run may write under this name.
pub open spec fn is_own(names: Names, p: Seq<u8>) -> bool {
    p == names.dst || p == names.tmp
}

/// The run only looks at this name.
pub open spec fn is_read(names: Names, p: Seq<u8>) -> bool {
    p == names.src || p == names.origin || p == names.beyond
}

/// No run writes under a name that another has to do with, nor under one that
/// it reads itself.
pub open spec fn are_apart(names: Seq<Names>) -> bool {
    &&& forall|k: int| 0 <= k < names.len() ==> (#[trigger] names[k]).dst != names[k].tmp
    &&& forall|k: int, j: int, p: Seq<u8>|
        #![trigger is_own(names[k], p), is_read(names[j], p)]
        0 <= k < names.len() && 0 <= j < names.len() && is_own(names[k], p) ==> !is_read(
            names[j],
            p,
        )
    &&& forall|k: int, j: int, p: Seq<u8>|
        #![trigger is_own(names[k], p), is_own(names[j], p)]
        0 <= k < names.len() && 0 <= j < names.len() && k != j && is_own(names[k], p) ==> !is_own(
            names[j],
            p,
        )
}

/// What an operating system does: the reply to an operation, and what the names
/// of the run stand for then. The directories that the names are in are there,
/// and what is saved goes to a name that no run has to do with.
pub type System = spec_fn(Op, Desk) -> (Reply, Desk);

/// Operations touch no names but the run's own.
pub open spec fn is_tidy(os: System) -> bool {
    forall|op: Op, d: Desk|
        ({
            let e = (#[trigger] os(op, d)).1;
            e.src == d.src && e.origin == d.origin && e.beyond == d.beyond
        })
}

/// Operations do what they say.
pub open spec fn is_sound(os: System) -> bool {
    forall|op: Op, d: Desk| sound(op, d, (#[trigger] os(op, d)).0, os(op, d).1)
}

// ---------------------------------------------------------------------------
// Turn by turn
// ---------------------------------------------------------------------------

/// The disk, and where each run is.
#[verifier::ext_equal]
pub struct World {
    pub disk: Map<Seq<u8>, Node>,
    pub runs: Seq<Run>,
}

/// Nothing is done yet.
pub open spec fn at_start(disk: Map<Seq<u8>, Node>, jobs: Seq<Job>) -> World {
    World { disk, runs: jobs.map_values(|j: Job| Run { at: j.start(), bytes: 0 }) }
}

/// The run goes on by one operation.
pub open spec fn goes_on(job: Job, os: System, run: Run, d: Desk) -> (Run, Desk) {
    match job.op_at(run.at) {
        None => (run, d),
        Some(op) => {
            let (reply, e) = os(op, d);
            (
                Run {
                    at: job.next_at(run.at, reply),
                    bytes: job.next_bytes(run.at, run.bytes, reply),
                },
                e,
            )
        },
    }
}

/// The run number `k` has its turn.
pub open spec fn turn(w: World, k: int, jobs: Seq<Job>, names: Seq<Names>, os: System) -> World {
    if 0 <= k < jobs.len() {
        let (run, d) = goes_on(jobs[k], os, w.runs[k], desk_on(w.disk, names[k]));
        World { disk: put_back(w.disk, names[k], d), runs: w.runs.update(k, run) }
    } else {
        w
    }
}

/// The runs have their turns, as `ks` tells.
pub open spec fn after_turns(
    w: World,
    ks: Seq<int>,
    jobs: Seq<Job>,
    names: Seq<Names>,
    os: System,
) -> World
    decreases ks.len(),
{
    if ks.len() == 0 {
        w
    } else {
        turn(after_turns(w, ks.drop_last(), jobs, names, os), ks.last(), jobs, names, os)
    }
}

/// Every run has come to its end.
pub open spec fn all_ended(w: World) -> bool {
    forall|k: int| 0 <= k < w.runs.len() ==> (#[trigger] w.runs[k]).at is Finished
}

/// How many of the turns are those of `k`.
pub open spec fn turns_of(ks: Seq<int>, k: int) -> nat
    decreases ks.len(),
{
    if ks.len() == 0 {
        0
    } else {
        turns_of(ks.drop_last(), k) + if ks.last() == k {
            1nat
        } else {
            0
        }
    }
}

/// A run after `n` turns, with the disk to itself.
pub open spec fn alone(job: Job, os: System, run: Run, d: Desk, n: nat) -> (Run, Desk)
    decreases n,
{
    if n == 0 {
        (run, d)
    } else {
        let (r, e) = alone(job, os, run, d, (n - 1) as nat);
        goes_on(job, os, r, e)
    }
}

proof fn lemma_put(disk: Map<Seq<u8>, Node>, p: Seq<u8>, n: Option<Node>, q: Seq<u8>)
    ensures
        node_at(put(disk, p, n), q) == if q == p {
            n
        } else {
            node_at(disk, q)
        },
{
}

proof fn lemma_put_back(disk: Map<Seq<u8>, Node>, names: Names, d: Desk, q: Seq<u8>)
    requires
        names.dst != names.tmp,
    ensures
        node_at(put_back(disk, names, d), q) == if q == names.dst {
            d.dst
        } else if q == names.tmp {
            d.tmp
        } else {
            node_at(disk, q)
        },
{
    lemma_put(disk, names.dst, d.dst, q);
    lemma_put(put(disk, names.dst, d.dst), names.tmp, d.tmp, q);
}

/// What a turn leaves to its own run.
proof fn lemma_own_turn(disk: Map<Seq<u8>, Node>, names: Seq<Names>, k: int, d: Desk)
    requires
        are_apart(names),
        0 <= k < names.len(),
        d.src == desk_on(disk, names[k]).src,
        d.origin == desk_on(disk, names[k]).origin,
        d.beyond == desk_on(disk, names[k]).beyond,
    ensures
        desk_on(put_back(disk, names[k], d), names[k]) == d,
{
    let n = names[k];
    assert(is_own(n, n.dst) && is_own(n, n.tmp));
    assert(!is_read(n, n.dst) && !is_read(n, n.tmp));
    lemma_put_back(disk, n, d, n.src);
    lemma_put_back(disk, n, d, n.origin);
    lemma_put_back(disk, n, d, n.dst);
    lemma_put_back(disk, n, d, n.beyond);
    lemma_put_back(disk, n, d, n.tmp);
}

/// What a turn leaves to the other runs.
proof fn lemma_other_turn(disk: Map<Seq<u8>, Node>, names: Seq<Names>, k: int, d: Desk, j: int)
    requires
        are_apart(names),
        0 <= k < names.len(),
        0 <= j < names.len(),
        j != k,
    ensures
        desk_on(put_back(disk, names[k], d), names[j]) == desk_on(disk, names[j]),
{
    let n = names[k];
    let m = names[j];
    assert(is_own(n, n.dst) && is_own(n, n.tmp));
    assert(!is_read(m, n.dst) && !is_read(m, n.tmp));
    assert(!is_own(m, n.dst) && !is_own(m, n.tmp));
    lemma_put_back(disk, n, d, m.src);
    lemma_put_back(disk, n, d, m.origin);
    lemma_put_back(disk, n, d, m.dst);
    lemma_put_back(disk, n, d, m.beyond);
    lemma_put_back(disk, n, d, m.tmp);
}

/// Whatever the order, each run goes its own way, and names that belong to no
/// run are left alone.
proof fn lemma_own_way(w: World, ks: Seq<int>, jobs: Seq<Job>, names: Seq<Names>, os: System)
    requires
        is_tidy(os),
        are_apart(names),
        names.len() == jobs.len() == w.runs.len(),
    ensures
        ({
            let v = after_turns(w, ks, jobs, names, os);
            &&& v.runs.len() == jobs.len()
            &&& forall|k: int|
                0 <= k < jobs.len() ==> (v.runs[k], desk_on(v.disk, #[trigger] names[k])) == alone(
                    jobs[k],
                    os,
                    w.runs[k],
                    desk_on(w.disk, names[k]),
                    turns_of(ks, k),
                )
            &&& forall|p: Seq<u8>|
                (forall|k: int| 0 <= k < names.len() ==> !is_own(#[trigger] names[k], p))
                    ==> #[trigger] node_at(v.disk, p) == node_at(w.disk, p)
        }),
    decreases ks.len(),
{
    if ks.len() > 0 {
        let init = ks.drop_last();
        let u = after_turns(w, init, jobs, names, os);
        let v = after_turns(w, ks, jobs, names, os);
        let t = ks.last();
        lemma_own_way(w, init, jobs, names, os);
        if 0 <= t < jobs.len() {
            let (run, d) = goes_on(jobs[t], os, u.runs[t], desk_on(u.disk, names[t]));
            assert forall|k: int| 0 <= k < jobs.len() implies (
                v.runs[k],
                desk_on(v.disk, #[trigger] names[k]),
            ) == alone(
                jobs[k],
                os,
                w.runs[k],
                desk_on(w.disk, names[k]),
                turns_of(ks, k),
            ) by {
                if k == t {
                    lemma_own_turn(u.disk, names, t, d);
                } else {
                    lemma_other_turn(u.disk, names, t, d, k);
                }
            }
            assert forall|p: Seq<u8>|
                (forall|k: int| 0 <= k < names.len() ==> !is_own(#[trigger] names[k], p)) implies
                #[trigger] node_at(v.disk, p) == node_at(w.disk, p) by {
                assert(!is_own(names[t], p));
                lemma_put_back(u.disk, names[t], d, p);
                assert(node_at(u.disk, p) == node_at(w.disk, p));
            }
        }
    }
}

proof fn lemma_ended(job: Job, os: System, run: Run, d: Desk, n: nat, m: nat)
    requires
        n <= m,
        alone(job, os, run, d, n).0.at is Finished,
    ensures
        alone(job, os, run, d, m) == alone(job, os, run, d, n),
    decreases m,
{
    if n < m {
        lemma_ended(job, os, run, d, n, (m - 1) as nat);
    }
}

/// The order in which runs have their turns does not matter: whatever the
/// operating system does, as long as an operation touches no names but the
/// run's own, the disk is the same in the end, and so is what every run came
/// to.
pub proof fn order_of_turns_does_not_matter(
    w: World,
    one: Seq<int>,
    other: Seq<int>,
    jobs: Seq<Job>,
    names: Seq<Names>,
    os: System,
)
    requires
        is_tidy(os),
        are_apart(names),
        names.len() == jobs.len() == w.runs.len(),
        all_ended(after_turns(w, one, jobs, names, os)),
        all_ended(after_turns(w, other, jobs, names, os)),
    ensures
        after_turns(w, one, jobs, names, os) == after_turns(w, other, jobs, names, os),
{
    let a = after_turns(w, one, jobs, names, os);
    let b = after_turns(w, other, jobs, names, os);
    lemma_own_way(w, one, jobs, names, os);
    lemma_own_way(w, other, jobs, names, os);
    assert forall|k: int| 0 <= k < jobs.len() implies a.runs[k] == b.runs[k] && desk_on(
        a.disk,
        #[trigger] names[k],
    ) == desk_on(b.disk, names[k]) by {
        let (m, n) = (turns_of(one, k), turns_of(other, k));
        let d = desk_on(w.disk, names[k]);
        assert(a.runs[k].at is Finished && b.runs[k].at is Finished);
        if m <= n {
            lemma_ended(jobs[k], os, w.runs[k], d, m, n);
        } else {
            lemma_ended(jobs[k], os, w.runs[k], d, n, m);
        }
    }
    assert forall|k: int| 0 <= k < a.runs.len() implies a.runs[k] == b.runs[k] by {
        assert(desk_on(a.disk, names[k]) == desk_on(b.disk, names[k]));
    }
    assert(a.runs =~= b.runs);
    assert forall|p: Seq<u8>| #[trigger] node_at(a.disk, p) == node_at(b.disk, p) by {
        if exists|k: int| 0 <= k < names.len() && is_own(#[trigger] names[k], p) {
            let k = choose|k: int| 0 <= k < names.len() && is_own(#[trigger] names[k], p);
            assert(desk_on(a.disk, names[k]) == desk_on(b.disk, names[k]));
            assert(desk_on(a.disk, names[k]).dst == node_at(a.disk, names[k].dst));
            assert(desk_on(a.disk, names[k]).tmp == node_at(a.disk, names[k].tmp));
        } else {
            assert(node_at(a.disk, p) == node_at(w.disk, p));
            assert(node_at(b.disk, p) == node_at(w.disk, p));
        }
    }
    lemma_same_disk(a.disk, b.disk);
}

proof fn lemma_same_disk(a: Map<Seq<u8>, Node>, b: Map<Seq<u8>, Node>)
    requires
        forall|p: Seq<u8>| #[trigger] node_at(a, p) == node_at(b, p),
    ensures
        a == b,
{
    assert forall|p: Seq<u8>| #[trigger] a.dom().contains(p) == b.dom().contains(p) by {
        assert(node_at(a, p) == node_at(b, p));
    }
    assert(a.dom() =~= b.dom());
    assert forall|p: Seq<u8>| #[trigger] a.dom().contains(p) implies a[p] == b[p] by {
        assert(node_at(a, p) == node_at(b, p));
    }
    assert(a =~= b);
}

// ---------------------------------------------------------------------------
// Many workers, and the same copy again
// ---------------------------------------------------------------------------

/// The jobs of entries.
pub open spec fn jobs_for(es: Seq<EntryView>, opts: CopyOptions, watched: bool) -> Seq<Job> {
    es.map_values(|e: EntryView| job_of(e, opts, watched))
}

/// What a run that has ended came to.
pub open spec fn outcome_of(run: Run) -> Outcome {
    match run.at {
        At::Finished(o) => o,
        _ => arbitrary(),
    }
}

/// The runs of a world that have ended, to be counted; `causes` are what the
/// system said of failures.
pub open spec fn dones(
    es: Seq<EntryView>,
    jobs: Seq<Job>,
    w: World,
    causes: Seq<Seq<char>>,
) -> Seq<Done> {
    Seq::new(
        es.len(),
        |k: int|
            Done {
                entry: es[k],
                job: jobs[k],
                outcome: outcome_of(w.runs[k]),
                bytes: w.runs[k].bytes,
                cause: causes[k],
            },
    )
}

/// How many copies are made at the same time does not matter: with one worker,
/// who makes them in some order, or with several, who take turns in another,
/// the disk is the same in the end, every entry comes to the same, and so does
/// the count, up to the order of the messages.
pub proof fn many_workers_are_like_one(
    es: Seq<EntryView>,
    opts: CopyOptions,
    jobs: usize,
    watched: bool,
    names: Seq<Names>,
    os: System,
    disk: Map<Seq<u8>, Node>,
    one: Seq<int>,
    many: Seq<int>,
    causes: Seq<Seq<char>>,
    workers: Seq<Seq<Done>>,
    st: StatsView,
)
    requires
        is_tidy(os),
        are_apart(names),
        names.len() == es.len(),
        ({
            let js = jobs_for(es, opts, watched);
            let ks = jobs_for(es, CopyOptions { jobs, ..opts }, watched);
            let w = after_turns(at_start(disk, ks), many, ks, names, os);
            &&& all_ended(after_turns(at_start(disk, js), one, js, names, os))
            &&& all_ended(w)
            &&& runs_of(workers).to_multiset() == dones(es, ks, w, causes).to_multiset()
        }),
    ensures
        ({
            let js = jobs_for(es, opts, watched);
            let ks = jobs_for(es, CopyOptions { jobs, ..opts }, watched);
            let v = after_turns(at_start(disk, js), one, js, names, os);
            let w = after_turns(at_start(disk, ks), many, ks, names, os);
            &&& v == w
            &&& same_count(st.plus(merged(workers)), counted(st, dones(es, js, v, causes)))
        }),
{
    let js = jobs_for(es, opts, watched);
    let ks = jobs_for(es, CopyOptions { jobs, ..opts }, watched);
    assert forall|k: int| 0 <= k < es.len() implies js[k] == ks[k] by {
        jobs_do_not_depend_on_the_workers(es[k], opts, jobs, watched);
    }
    assert(js =~= ks);
    let w = after_turns(at_start(disk, js), many, js, names, os);
    order_of_turns_does_not_matter(at_start(disk, js), one, many, js, names, os);
    sharing_the_work_changes_no_count(st, workers, dones(es, js, w, causes));
}

/// A run with the disk to itself, as what it met.
spec fn play_of(job: Job, os: System, d: Desk, n: nat) -> Play
    decreases n,
{
    if n == 0 {
        Play { replies: Seq::empty(), desks: seq![d] }
    } else {
        let before = play_of(job, os, d, (n - 1) as nat);
        let (run, e) = alone(job, os, Run { at: job.start(), bytes: 0 }, d, (n - 1) as nat);
        match job.op_at(run.at) {
            None => before,
            Some(op) => Play {
                replies: before.replies.push(os(op, e).0),
                desks: before.desks.push(os(op, e).1),
            },
        }
    }
}

proof fn lemma_play(job: Job, os: System, d: Desk, n: nat)
    requires
        is_sound(os),
    ensures
        ({
            let play = play_of(job, os, d, n);
            let (run, e) = alone(job, os, Run { at: job.start(), bytes: 0 }, d, n);
            &&& plays(job, play)
            &&& play.before() == d
            &&& play.end() == e
            &&& after(job, play.replies) == run.at
        }),
    decreases n,
{
    if n > 0 {
        let m = (n - 1) as nat;
        let before = play_of(job, os, d, m);
        let play = play_of(job, os, d, n);
        let (run, e) = alone(job, os, Run { at: job.start(), bytes: 0 }, d, m);
        lemma_play(job, os, d, m);
        if let Some(op) = job.op_at(run.at) {
            let last = before.replies.len() as int;
            assert(sound(op, e, os(op, e).0, os(op, e).1));
            assert(play.replies.drop_last() =~= before.replies);
            assert forall|i: int| 0 <= i < play.replies.len() implies match #[trigger] op_number(
                job,
                play.replies,
                i,
            ) {
                Some(o) => sound(o, play.desks[i], play.replies[i], play.desks[i + 1]),
                None => play.desks[i + 1] == play.desks[i],
            } by {
                if i < last {
                    assert(play.replies.take(i) =~= before.replies.take(i));
                    assert(op_number(job, before.replies, i) == op_number(job, play.replies, i));
                } else {
                    assert(play.replies.take(i) =~= before.replies);
                }
            }
        }
    }
}

/// The entry is a file or a link, and the source of a file has the size that
/// it was planned with.
pub open spec fn is_as_planned(e: EntryView, names: Names, disk: Map<Seq<u8>, Node>) -> bool {
    match e {
        EntryView::File { size, .. } => node_at(disk, names.origin) matches Some(o)
            ==> size_of_node(o) == size,
        EntryView::Symlink { .. } => true,
        _ => false,
    }
}

/// The run ended without a failure.
pub open spec fn ended_well(run: Run) -> bool {
    run.at == At::Finished(Outcome::Copied) || run.at == At::Finished(Outcome::AlreadyPresent)
}

/// With `--resume`, a second copy finds everything where the first has left it:
/// whatever the order of the turns in both, the disk does not change, every
/// file and link counts as there already, and nothing is copied or goes wrong.
pub proof fn a_second_copy_changes_nothing(
    es: Seq<EntryView>,
    opts: CopyOptions,
    watched: bool,
    names: Seq<Names>,
    os: System,
    disk: Map<Seq<u8>, Node>,
    first: Seq<int>,
    second: Seq<int>,
    causes: Seq<Seq<char>>,
    st: StatsView,
)
    requires
        opts.resume,
        opts.mode == CopyMode::Copy,
        !opts.attributes_only,
        opts.overwrite == Overwrite::Clobber,
        is_tidy(os),
        is_sound(os),
        are_apart(names),
        names.len() == es.len(),
        forall|k: int| 0 <= k < es.len() ==> is_as_planned(#[trigger] es[k], names[k], disk),
        ({
            let js = jobs_for(es, opts, watched);
            let v = after_turns(at_start(disk, js), first, js, names, os);
            &&& forall|k: int| 0 <= k < es.len() ==> ended_well(#[trigger] v.runs[k])
            &&& all_ended(after_turns(at_start(v.disk, js), second, js, names, os))
        }),
    ensures
        ({
            let js = jobs_for(es, opts, watched);
            let v = after_turns(at_start(disk, js), first, js, names, os);
            let w = after_turns(at_start(v.disk, js), second, js, names, os);
            &&& w.disk == v.disk
            &&& forall|k: int|
                0 <= k < es.len() ==> (#[trigger] w.runs[k]).at == At::Finished(
                    Outcome::AlreadyPresent,
                )
            &&& counted(st, dones(es, js, w, causes)) == (StatsView {
                already_present: st.already_present + es.len(),
                ..st
            })
        }),
{
    let js = jobs_for(es, opts, watched);
    let a = at_start(disk, js);
    let v = after_turns(a, first, js, names, os);
    let b = at_start(v.disk, js);
    let w = after_turns(b, second, js, names, os);
    lemma_own_way(a, first, js, names, os);
    lemma_own_way(b, second, js, names, os);
    assert forall|k: int| 0 <= k < es.len() implies w.runs[k].at == At::Finished(
        Outcome::AlreadyPresent,
    ) && desk_on(w.disk, #[trigger] names[k]) == desk_on(v.disk, names[k]) by {
        let (m, n) = (turns_of(first, k), turns_of(second, k));
        let d = desk_on(disk, names[k]);
        let e = desk_on(v.disk, names[k]);
        assert(is_as_planned(es[k], names[k], disk));
        assert(ended_well(v.runs[k]));
        assert(a.runs[k] == Run { at: js[k].start(), bytes: 0 });
        assert(b.runs[k] == Run { at: js[k].start(), bytes: 0 });
        lemma_play(js[k], os, d, m);
        a_copy_stands_there(js[k], play_of(js[k], os, d, m));
        lemma_play(js[k], os, e, n);
        an_earlier_copy_is_left_alone(js[k], play_of(js[k], os, e, n));
        assert(w.runs[k].at is Finished);
    }
    assert forall|k: int| 0 <= k < es.len() implies (#[trigger] w.runs[k]).at == At::Finished(
        Outcome::AlreadyPresent,
    ) by {
        assert(desk_on(w.disk, names[k]) == desk_on(v.disk, names[k]));
    }
    assert forall|p: Seq<u8>| #[trigger] node_at(w.disk, p) == node_at(v.disk, p) by {
        if exists|k: int| 0 <= k < names.len() && is_own(#[trigger] names[k], p) {
            let k = choose|k: int| 0 <= k < names.len() && is_own(#[trigger] names[k], p);
            assert(desk_on(w.disk, names[k]) == desk_on(v.disk, names[k]));
            assert(desk_on(w.disk, names[k]).dst == node_at(w.disk, names[k].dst));
            assert(desk_on(w.disk, names[k]).tmp == node_at(w.disk, names[k].tmp));
        }
    }
    lemma_same_disk(w.disk, v.disk);
    lemma_all_present(st, dones(es, js, w, causes));
}

proof fn lemma_all_present(st: StatsView, ds: Seq<Done>)
    requires
        forall|k: int|
            0 <= k < ds.len() ==> (#[trigger] ds[k]).outcome == Outcome::AlreadyPresent,
    ensures
        counted(st, ds) == (StatsView { already_present: st.already_present + ds.len(), ..st }),
    decreases ds.len(),
{
    if ds.len() > 0 {
        assert(ds[ds.len() - 1].outcome == Outcome::AlreadyPresent);
        assert forall|k: int| 0 <= k < ds.drop_last().len() implies (
        #[trigger] ds.drop_last()[k]).outcome == Outcome::AlreadyPresent by {
            assert(ds[k].outcome == Outcome::AlreadyPresent);
        }
        lemma_all_present(st, ds.drop_last());
    }
}

// ---------------------------------------------------------------------------
// Directories
// ---------------------------------------------------------------------------

/// A step from one disk to the next, as far as it gives a directory its
/// attributes: a run does so on a disk whose operations are sound, without a
/// failure, and touches nothing else. Of other steps nothing is asked.
pub open spec fn is_dressing(
    step: StepView,
    es: Seq<EntryView>,
    opts: CopyOptions,
    watched: bool,
    names: Seq<Names>,
    before: Map<Seq<u8>, Node>,
    play: Play,
    next: Map<Seq<u8>, Node>,
) -> bool {
    step matches StepView::Dress(i) ==> {
        let job = job_of(es[i], opts, watched);
        &&& plays(job, play)
        &&& after(job, play.replies) == At::Finished(Outcome::Copied)
        &&& play.before() == desk_on(before, names[i])
        &&& play.end() == desk_on(next, names[i])
        &&& play.before().dst matches Some(n) && n.kind == FileKind::Dir
        &&& forall|p: Seq<u8>|
            p != names[i].dst ==> #[trigger] node_at(next, p) == node_at(before, p)
    }
}

/// The directories go to different places, and none of them to a source.
pub open spec fn directories_are_apart(es: Seq<EntryView>, names: Seq<Names>) -> bool {
    forall|i: int, j: int|
        #![trigger names[i], names[j]]
        0 <= i < es.len() && 0 <= j < es.len() && es[i] is Dir && es[j] is Dir ==> names[i].dst
            != names[j].origin && (i != j ==> names[i].dst != names[j].dst)
}

/// The steps lead from each disk to the next, without a failure of those that
/// give attributes, and directories stay clear of one another.
pub open spec fn is_carried_out(
    c: Seq<StepView>,
    es: Seq<EntryView>,
    opts: CopyOptions,
    watched: bool,
    names: Seq<Names>,
    disks: Seq<Map<Seq<u8>, Node>>,
    met: Seq<Play>,
) -> bool {
    &&& disks.len() == c.len() + 1
    &&& met.len() == c.len()
    &&& names.len() == es.len()
    &&& directories_are_apart(es, names)
    &&& forall|t: int|
        0 <= t < c.len() ==> is_dressing(
            #[trigger] c[t],
            es,
            opts,
            watched,
            names,
            disks[t],
            met[t],
            disks[t + 1],
        )
}

/// Nothing that comes behind changes what a directory has got.
proof fn lemma_stays_dressed(
    es: Seq<EntryView>,
    opts: CopyOptions,
    watched: bool,
    keeps: bool,
    checks: bool,
    names: Seq<Names>,
    disks: Seq<Map<Seq<u8>, Node>>,
    met: Seq<Play>,
    k: int,
    j: int,
)
    requires
        is_carried_out(
            course_of(es, opts.jobs as int, keeps, checks),
            es,
            opts,
            watched,
            names,
            disks,
            met,
        ),
        0 <= k < j <= course_of(es, opts.jobs as int, keeps, checks).len(),
        course_of(es, opts.jobs as int, keeps, checks)[k] is Dress,
    ensures
        ({
            let i = course_of(es, opts.jobs as int, keeps, checks)[k]->Dress_0;
            &&& node_at(disks[j], names[i].dst) == node_at(disks[k + 1], names[i].dst)
            &&& node_at(disks[j], names[i].origin) == node_at(disks[k + 1], names[i].origin)
        }),
    decreases j,
{
    let jobs = opts.jobs as int;
    let c = course_of(es, jobs, keeps, checks);
    let i = c[k]->Dress_0;
    if j > k + 1 {
        lemma_stays_dressed(es, opts, watched, keeps, checks, names, disks, met, k, j - 1);
        attributes_come_after_all_writes(es, jobs, keeps, checks, k, j - 1);
        each_directory_is_dressed_once(es, jobs, keeps, checks, k, j - 1);
        each_directory_is_dressed_once(es, jobs, keeps, checks, j - 1, k);
        let h = c[j - 1]->Dress_0;
        assert(is_dressing(
            c[j - 1],
            es,
            opts,
            watched,
            names,
            disks[j - 1],
            met[j - 1],
            disks[j],
        ));
        assert(names[h].dst != names[i].origin && names[h].dst != names[i].dst);
        assert(node_at(disks[j], names[i].dst) == node_at(disks[j - 1], names[i].dst));
        assert(node_at(disks[j], names[i].origin) == node_at(disks[j - 1], names[i].origin));
    }
}

/// In the end every directory has the mode, the times, and the owner and group
/// of its source, where these are kept, whatever was written in it on the way.
pub proof fn directories_end_up_like_their_sources(
    es: Seq<EntryView>,
    opts: CopyOptions,
    watched: bool,
    checks: bool,
    names: Seq<Names>,
    disks: Seq<Map<Seq<u8>, Node>>,
    met: Seq<Play>,
    i: int,
)
    requires
        is_carried_out(
            course_of(es, opts.jobs as int, opts.preserve != nothing_kept(), checks),
            es,
            opts,
            watched,
            names,
            disks,
            met,
        ),
        0 <= i < es.len(),
        es[i] is Dir,
    ensures
        ({
            let job = job_of(es[i], opts, watched);
            let dst = node_at(disks.last(), names[i].dst);
            let origin = node_at(disks.last(), names[i].origin);
            &&& has_mode(job, dst, origin) && has_times(job, dst, origin)
            &&& (forall|t: int|
                0 <= t < met.len() ==> all_mind_owners(job, #[trigger] met[t])) ==> has_owner(
                job,
                dst,
                origin,
            )
        }),
{
    let keeps = opts.preserve != nothing_kept();
    let jobs = opts.jobs as int;
    let c = course_of(es, jobs, keeps, checks);
    let job = job_of(es[i], opts, watched);
    if keeps {
        the_course_leaves_nothing_out(es, jobs, keeps, checks, i);
        let k = choose|k: int| 0 <= k < c.len() && c[k] == StepView::Dress(i);
        assert(is_dressing(c[k], es, opts, watched, names, disks[k], met[k], disks[k + 1]));
        a_dressed_directory_is_like_its_source(job, met[k]);
        lemma_stays_dressed(
            es,
            opts,
            watched,
            keeps,
            checks,
            names,
            disks,
            met,
            k,
            c.len() as int,
        );
        assert(desk_on(disks[k + 1], names[i]).dst == node_at(disks[k + 1], names[i].dst));
        assert(desk_on(disks[k + 1], names[i]).origin == node_at(disks[k + 1], names[i].origin));
    }
}

// ---------------------------------------------------------------------------
// A system like that
// ---------------------------------------------------------------------------

/// The desk with `n` at the destination or under the temporary name.
pub open spec fn with_node(d: Desk, l: Loc, n: Option<Node>) -> Desk {
    match l {
        Loc::Src => d,
        Loc::Dst => Desk { dst: n, ..d },
        Loc::Tmp => Desk { tmp: n, ..d },
    }
}

/// A new node, with the attributes that it happens to get.
pub open spec fn made(kind: FileKind, data: Seq<u8>) -> Option<Node> {
    Some(
        Node {
            kind,
            data,
            mode: 0o644,
            times: Times {
                accessed: Stamp { secs: 0, nanos: 0 },
                modified: Stamp { secs: 0, nanos: 0 },
            },
            uid: 0,
            gid: 0,
        },
    )
}

/// An operating system on whose disk nothing ever fails but what cannot be done.
pub open spec fn plain_system(op: Op, d: Desk) -> (Reply, Desk) {
    match op {
        Op::Look { at, follow } => match d.seen(at, follow) {
            Some(n) => (
                Reply::Saw(
                    Facts {
                        kind: n.kind,
                        len: size_of_node(n),
                        mode: n.mode,
                        modified: Some(n.times.modified),
                        times: n.times,
                        uid: n.uid,
                        gid: n.gid,
                    },
                ),
                d,
            ),
            None => (Reply::Failed, d),
        },
        Op::Ask => (Reply::Answer(true), d),
        Op::ListBackups => (Reply::Highest(None), d),
        Op::MakeParent | Op::ReadLink => (Reply::Done, d),
        Op::Checksum(_) => (Reply::Checksum(0), d),
        Op::SetAside(_) | Op::RemoveTree => (Reply::Done, with_node(d, Loc::Dst, None)),
        Op::RemoveFile(l) => (Reply::Done, with_node(d, l, None)),
        Op::HardLink => (Reply::Done, with_node(d, Loc::Dst, d.src)),
        Op::SymlinkToSource => (
            Reply::Done,
            with_node(d, Loc::Dst, made(FileKind::Symlink, Seq::empty())),
        ),
        Op::CreateEmpty => (
            Reply::Done,
            with_node(d, Loc::Dst, made(FileKind::File, Seq::empty())),
        ),
        Op::Relink => match d.src {
            Some(s) => (Reply::Done, with_node(d, Loc::Dst, made(FileKind::Symlink, s.data))),
            None => (Reply::Failed, d),
        },
        Op::MakeFifo => (
            Reply::Done,
            with_node(d, Loc::Dst, made(FileKind::Fifo, Seq::empty())),
        ),
        Op::Transfer(route) => match d.origin {
            Some(o) => (
                if route == Route::Clone {
                    Reply::Done
                } else {
                    Reply::Copied(size_of_node(o))
                },
                with_node(d, Loc::Tmp, made(FileKind::File, o.data)),
            ),
            None => (Reply::Failed, d),
        },
        Op::CopyPermissions | Op::CopyXattrs { .. } => (Reply::Done, d),
        Op::SetOwner { at, uid, gid } => match d.at(at) {
            Some(n) => (Reply::Done, with_node(d, at, Some(Node { uid, gid, ..n }))),
            None => (Reply::Failed, d),
        },
        Op::SetMode { at, mode } => match d.at(at) {
            Some(n) if at != Loc::Src => (
                Reply::Done,
                with_node(d, at, Some(Node { mode, ..n })),
            ),
            _ => (Reply::Failed, d),
        },
        Op::SetTimes { at, times } => match d.at(at) {
            Some(n) if at != Loc::Src => (
                Reply::Done,
                with_node(d, at, Some(Node { times, ..n })),
            ),
            _ => (Reply::Failed, d),
        },
        Op::SetLinkTimes(times) => match d.dst {
            Some(n) => (Reply::Done, with_node(d, Loc::Dst, Some(Node { times, ..n }))),
            None => (Reply::Failed, d),
        },
        Op::Publish => (Reply::Done, Desk { dst: d.tmp, tmp: None, ..d }),
        Op::Rename => (Reply::CrossDevice, d),
    }
}

/// There are such systems: what the laws above ask of one can be met.
pub proof fn a_plain_system_is_sound()
    ensures
        is_sound(|op: Op, d: Desk| plain_system(op, d)),
        is_tidy(|op: Op, d: Desk| plain_system(op, d)),
{
    let os: System = |op: Op, d: Desk| plain_system(op, d);
    assert forall|op: Op, d: Desk| sound(op, d, (#[trigger] os(op, d)).0, os(op, d).1) by {
        lemma_plain(op, d);
    }
}

/// On such a system changes of owner are done when they are reported as done.
pub proof fn a_plain_system_minds_owners(op: Op, d: Desk)
    ensures
        minds_owners(op, d, plain_system(op, d).0, plain_system(op, d).1),
{
}

proof fn lemma_plain(op: Op, d: Desk)
    ensures
        sound(op, d, plain_system(op, d).0, plain_system(op, d).1),
{
}

} // verus!
