//! What holds of a plan that is carried out, by one worker or by many, for the
//! first time or again.

use vstd::prelude::*;
use vstd::seq_lib::lemma_multiset_commutative;

use crate::copy::{blocks_directory, directory_counted, job_of, run_counted, CopyOptions, DirDone};
use crate::engine::{complete_file, At, Facts, Job, Loc, Op, Outcome, Reply};
use crate::engine_laws::{after, finished_copies_are_not_repeated, op_number};
use crate::options::Overwrite;
use crate::plan::{EntryView, FileKind};
use crate::stats::{nothing_done, same_count, StatsView};

verus! {

// ---------------------------------------------------------------------------
// One worker or many
// ---------------------------------------------------------------------------

/// A run that is over: the entry, its job, what it came to, the bytes that went
/// by, and what the system said of a failure.
pub struct Done {
    pub entry: EntryView,
    pub job: Job,
    pub outcome: Outcome,
    pub bytes: u64,
    pub cause: Seq<char>,
}

/// The count after one more run.
pub open spec fn with_run(st: StatsView, d: Done) -> StatsView {
    run_counted(st, d.entry, d.job, d.outcome, d.bytes, d.cause)
}

/// The count after runs, one after the other.
pub open spec fn counted(st: StatsView, ds: Seq<Done>) -> StatsView
    decreases ds.len(),
{
    if ds.len() == 0 {
        st
    } else {
        with_run(counted(st, ds.drop_last()), ds.last())
    }
}

/// The counts of several workers, each of its own runs, added up.
pub open spec fn merged(workers: Seq<Seq<Done>>) -> StatsView
    decreases workers.len(),
{
    if workers.len() == 0 {
        nothing_done()
    } else {
        merged(workers.drop_last()).plus(counted(nothing_done(), workers.last()))
    }
}

/// All runs of several workers.
pub open spec fn runs_of(workers: Seq<Seq<Done>>) -> Seq<Done>
    decreases workers.len(),
{
    if workers.len() == 0 {
        Seq::empty()
    } else {
        runs_of(workers.drop_last()) + workers.last()
    }
}

/// What a run adds is the same, whatever was counted before.
proof fn lemma_share(st: StatsView, d: Done)
    ensures
        with_run(st, d) == st.plus(with_run(nothing_done(), d)),
{
    assert(with_run(st, d) =~= st.plus(with_run(nothing_done(), d)));
}

proof fn lemma_counted(st: StatsView, ds: Seq<Done>)
    ensures
        counted(st, ds) == st.plus(counted(nothing_done(), ds)),
    decreases ds.len(),
{
    if ds.len() == 0 {
        assert(st.plus(nothing_done()) =~= st);
    } else {
        let init = ds.drop_last();
        let share = with_run(nothing_done(), ds.last());
        let from_none = counted(nothing_done(), init);
        lemma_counted(st, init);
        lemma_share(counted(st, init), ds.last());
        lemma_share(from_none, ds.last());
        assert(st.plus(from_none).plus(share) =~= st.plus(from_none.plus(share)));
    }
}

proof fn lemma_counted_parts(st: StatsView, a: Seq<Done>, b: Seq<Done>)
    ensures
        counted(st, a + b) == counted(counted(st, a), b),
    decreases b.len(),
{
    if b.len() == 0 {
        assert(a + b =~= a);
    } else {
        assert((a + b).drop_last() =~= a + b.drop_last());
        lemma_counted_parts(st, a, b.drop_last());
    }
}

proof fn lemma_merged(workers: Seq<Seq<Done>>)
    ensures
        merged(workers) == counted(nothing_done(), runs_of(workers)),
    decreases workers.len(),
{
    if workers.len() > 0 {
        let rest = workers.drop_last();
        lemma_merged(rest);
        lemma_counted_parts(nothing_done(), runs_of(rest), workers.last());
        lemma_counted(merged(rest), workers.last());
    }
}

/// What one has done first and another then, or the other way round.
proof fn lemma_swapped(a: StatsView, b: StatsView, c: StatsView)
    ensures
        same_count(a.plus(b).plus(c), a.plus(c).plus(b)),
{
    broadcast use vstd::multiset::group_multiset_axioms;

    lemma_multiset_commutative(a.errors + b.errors, c.errors);
    lemma_multiset_commutative(a.errors, b.errors);
    lemma_multiset_commutative(a.errors + c.errors, b.errors);
    lemma_multiset_commutative(a.errors, c.errors);
    lemma_multiset_commutative(a.warnings + b.warnings, c.warnings);
    lemma_multiset_commutative(a.warnings, b.warnings);
    lemma_multiset_commutative(a.warnings + c.warnings, b.warnings);
    lemma_multiset_commutative(a.warnings, c.warnings);
    let (x, y) = (a.plus(b).plus(c), a.plus(c).plus(b));
    assert(x.errors.to_multiset() =~= y.errors.to_multiset());
    assert(x.warnings.to_multiset() =~= y.warnings.to_multiset());
}

proof fn lemma_same_plus(a: StatsView, b: StatsView, c: StatsView)
    requires
        same_count(a, b),
    ensures
        same_count(a.plus(c), b.plus(c)),
{
    lemma_multiset_commutative(a.errors, c.errors);
    lemma_multiset_commutative(b.errors, c.errors);
    lemma_multiset_commutative(a.warnings, c.warnings);
    lemma_multiset_commutative(b.warnings, c.warnings);
}

/// The order of the runs does not matter.
pub proof fn order_of_runs_does_not_matter(st: StatsView, a: Seq<Done>, b: Seq<Done>)
    requires
        a.to_multiset() == b.to_multiset(),
    ensures
        same_count(counted(st, a), counted(st, b)),
    decreases a.len(),
{
    a.to_multiset_ensures();
    b.to_multiset_ensures();
    if a.len() > 0 {
        let x = a.last();
        let init = a.drop_last();
        assert(a[a.len() - 1] == x);
        assert(a.contains(x));
        assert(a.to_multiset().count(x) > 0);
        assert(b.contains(x));
        let j = choose|j: int| 0 <= j < b.len() && b[j] == x;
        let front = b.take(j);
        let back = b.skip(j + 1);
        assert(a.remove(a.len() - 1) =~= init);
        assert(b.remove(j) =~= front + back);
        order_of_runs_does_not_matter(st, init, front + back);
        let share = with_run(nothing_done(), x);
        let before = counted(st, front);
        let behind = counted(nothing_done(), back);
        lemma_share(counted(st, init), x);
        lemma_counted_parts(st, front, back);
        lemma_counted(before, back);
        assert(b =~= front.push(x) + back);
        assert(front.push(x).drop_last() =~= front);
        lemma_counted_parts(st, front.push(x), back);
        lemma_share(before, x);
        lemma_counted(before.plus(share), back);
        lemma_same_plus(counted(st, init), before.plus(behind), share);
        lemma_swapped(before, share, behind);
    }
}

/// However the runs are shared out among workers, and in whatever order they
/// end, the count is that of one worker who makes them all, up to the order of
/// the messages.
pub proof fn sharing_the_work_changes_no_count(
    st: StatsView,
    workers: Seq<Seq<Done>>,
    ds: Seq<Done>,
)
    requires
        runs_of(workers).to_multiset() == ds.to_multiset(),
    ensures
        same_count(st.plus(merged(workers)), counted(st, ds)),
{
    lemma_merged(workers);
    lemma_counted(st, runs_of(workers));
    order_of_runs_does_not_matter(st, runs_of(workers), ds);
}

/// What is done about an entry does not depend on how many workers there are.
pub proof fn jobs_do_not_depend_on_the_workers(
    e: EntryView,
    opts: CopyOptions,
    jobs: usize,
    watched: bool,
)
    ensures
        job_of(e, CopyOptions { jobs, ..opts }, watched) == job_of(e, opts, watched),
{
}

// ---------------------------------------------------------------------------
// The same copy again
// ---------------------------------------------------------------------------

/// What is seen at a destination: what is there, and what is reached by it.
pub struct Place {
    pub link: Facts,
    pub reached: Facts,
}

/// An earlier copy of `e` is at its destination: a file with the size of the
/// source, a link, or a directory.
pub open spec fn is_there_already(e: EntryView, place: Place) -> bool {
    match e {
        EntryView::File { size, .. } => place.link.kind != FileKind::Dir && complete_file(
            Some(place.reached),
            size,
        ),
        EntryView::Symlink { .. } => place.link.kind == FileKind::Symlink,
        EntryView::Dir { .. } => place.reached.kind == FileKind::Dir,
        _ => false,
    }
}

/// What the looks of a run see that finds an earlier copy of `e`.
pub open spec fn looks(e: EntryView, place: Place) -> Seq<Reply> {
    let link = Reply::Saw(place.link);
    match e {
        EntryView::File { .. } => seq![link, link, Reply::Saw(place.reached)],
        _ => seq![link, link],
    }
}

/// The operation looks at the destination, and `reply` is what it sees.
pub open spec fn is_look(op: Option<Op>, reply: Reply, place: Place) -> bool {
    op matches Some(Op::Look { at, follow }) && at == Loc::Dst && reply == Reply::Saw(
        if follow {
            place.reached
        } else {
            place.link
        },
    )
}

/// With `--resume`, what was copied before is only looked at: the run of a file
/// or a link that is there changes nothing and ends, and a directory that is
/// there is not in the way.
pub proof fn what_is_there_is_only_looked_at(
    e: EntryView,
    opts: CopyOptions,
    watched: bool,
    place: Place,
)
    requires
        opts.resume,
        opts.overwrite == Overwrite::Clobber,
        is_there_already(e, place),
    ensures
        !(e is Dir) ==> after(job_of(e, opts, watched), looks(e, place)) == At::Finished(
            Outcome::AlreadyPresent,
        ),
        !(e is Dir) ==> forall|i: int|
            0 <= i < looks(e, place).len() ==> is_look(
                #[trigger] op_number(job_of(e, opts, watched), looks(e, place), i),
                looks(e, place)[i],
                place,
            ),
        e is Dir ==> !blocks_directory(Some(place.link), Some(place.reached)),
{
    if !(e is Dir) {
        let job = job_of(e, opts, watched);
        let rs = looks(e, place);
        finished_copies_are_not_repeated(job, place.link, place.reached);
        reveal(Job::allowed);
        let none = Seq::<Reply>::empty();
        let one = seq![rs[0]];
        let two = seq![rs[0], rs[1]];
        assert(rs.take(0) =~= none);
        assert(rs.take(1) =~= one);
        assert(one.drop_last() =~= none);
        assert(two.drop_last() =~= one);
        assert(e is File ==> rs.take(2) =~= two);
        assert(after(job, none) == job.start());
        assert(after(job, one) == job.next_at(job.start(), rs[0]));
        assert(e is File ==> after(job, one) == At::Exists);
        assert(e is File ==> after(job, two) == At::Resuming);
        assert(e is Symlink ==> after(job, one) == At::Resuming);
        assert forall|i: int| 0 <= i < rs.len() implies is_look(
            #[trigger] op_number(job, rs, i),
            rs[i],
            place,
        ) by {
            assert(i == 0 || i == 1 || i == 2);
        }
    }
}

/// The count after the copy of `es` is made again where everything is there
/// already; a directory is there, and gets its attributes.
pub open spec fn repeated(
    st: StatsView,
    es: Seq<EntryView>,
    seen: Seq<Place>,
    opts: CopyOptions,
    watched: bool,
) -> StatsView
    decreases es.len(),
{
    if es.len() == 0 {
        st
    } else {
        let before = repeated(st, es.drop_last(), seen.drop_last(), opts, watched);
        let e = es.last();
        let job = job_of(e, opts, watched);
        match e {
            EntryView::Dir { dst, .. } => run_counted(
                directory_counted(before, dst, DirDone::Made { existed: true }),
                e,
                job,
                Outcome::Copied,
                0,
                Seq::empty(),
            ),
            _ => match after(job, looks(e, seen.last())) {
                At::Finished(o) => run_counted(before, e, job, o, 0, Seq::empty()),
                _ => before,
            },
        }
    }
}

/// How many of `es` are no directories.
pub open spec fn leaves_in(es: Seq<EntryView>) -> int
    decreases es.len(),
{
    if es.len() == 0 {
        0
    } else {
        leaves_in(es.drop_last()) + if es.last() is Dir {
            0int
        } else {
            1
        }
    }
}

/// With `--resume`, a copy that was made before is not made again: no file and
/// no byte is copied, no directory is made, nothing goes wrong, and every file
/// and link counts as there already. So it is in whatever order the entries
/// have their turn.
pub proof fn resuming_copies_nothing_twice(
    st: StatsView,
    es: Seq<EntryView>,
    seen: Seq<Place>,
    opts: CopyOptions,
    watched: bool,
)
    requires
        opts.resume,
        opts.overwrite == Overwrite::Clobber,
        es.len() == seen.len(),
        forall|i: int| 0 <= i < es.len() ==> is_there_already(#[trigger] es[i], seen[i]),
    ensures
        repeated(st, es, seen, opts, watched) == (StatsView {
            already_present: st.already_present + leaves_in(es),
            ..st
        }),
    decreases es.len(),
{
    if es.len() > 0 {
        let e = es.last();
        assert(is_there_already(es[es.len() - 1], seen[es.len() - 1]));
        assert forall|i: int| 0 <= i < es.drop_last().len() implies is_there_already(
            #[trigger] es.drop_last()[i],
            seen.drop_last()[i],
        ) by {
            assert(is_there_already(es[i], seen[i]));
        }
        resuming_copies_nothing_twice(st, es.drop_last(), seen.drop_last(), opts, watched);
        what_is_there_is_only_looked_at(e, opts, watched, seen.last());
    }
}

} // verus!
