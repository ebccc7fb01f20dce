//! What becomes of each source and of each file, seen from what was seen of it.

use vstd::prelude::*;

use crate::options::Deref;
use crate::path::{
    absolute_of, all_names, dot, dotdot, is_abs, is_name, normalized, normalized_is_injective, parts,
    walked,
};
use crate::plan::{
    dest_root, event_planned, file_planned, followed, is_pruned, nesting_of, source_planned, DestFacts,
    EntryView, FileKind, Meta, Nesting, Observed, PlanConfig, PlanView, PlannerView, SourceSpec,
    TreeEvent,
};

verus! {

/// `b` is `a` with `e` as one more thing to do, and nothing else.
pub open spec fn adds_only(a: PlanView, e: EntryView, b: PlanView) -> bool {
    b == PlanView { entries: a.entries.push(e), ..a }
}

/// `b` is `a` with one more message, and nothing else.
pub open spec fn complains_only(a: PlanView, b: PlanView) -> bool {
    &&& b.errors.len() == a.errors.len() + 1
    &&& b.errors.drop_last() == a.errors
    &&& b == PlanView { errors: b.errors, ..a }
}

/// `b` is `a` with the copy of a file with `m` from `src` to `dst`, and nothing
/// else: its bytes are counted, and it is known to have holes when the space
/// that it takes does not hold its bytes.
pub open spec fn copies_only(a: PlanView, src: Seq<u8>, dst: Seq<u8>, m: Meta, b: PlanView) -> bool {
    &&& b.entries.len() == a.entries.len() + 1
    &&& b.entries.drop_last() == a.entries
    &&& b.entries.last() matches EntryView::File { src: s, dst: d, size, sparse_hint } && {
        &&& s == src
        &&& d == dst
        &&& size == m.len
        &&& sparse_hint <==> m.blocks * 512 < m.len
    }
    &&& b.total_bytes == a.total_bytes + m.len
    &&& b.file_count == a.file_count + 1
    &&& b.skipped == a.skipped
    &&& b.excluded == a.excluded
    &&& b.errors == a.errors
}

/// A file that stands at its own destination is not copied, nor is one whose
/// destination is a link to nothing; elsewhere a link at the destination is
/// written through. With `--remove-destination` the link itself gives way.
pub proof fn files_go_through_links(
    st: PlannerView,
    src: Seq<u8>,
    dst: Seq<u8>,
    m: Meta,
    facts: DestFacts,
    cfg: PlanConfig,
)
    ensures
        ({
            let next = file_planned(st, src, dst, m, facts, cfg);
            let through = facts.is_link && !cfg.remove_destination;
            let itself = facts.file matches Some(id) && id.0 == m.dev && id.1 == m.ino;
            let many_names = cfg.preserve_links && m.nlink > 1;
            &&& through && facts.target is None ==> complains_only(st.plan, next.plan)
            &&& itself ==> complains_only(st.plan, next.plan)
            &&& !itself && !many_names && !through ==> copies_only(
                st.plan,
                src,
                dst,
                m,
                next.plan,
            )
            &&& !itself && !many_names && through && facts.target is Some ==> copies_only(
                st.plan,
                src,
                facts.target.unwrap()@,
                m,
                next.plan,
            )
        }),
{
    let next = file_planned(st, src, dst, m, facts, cfg);
    if next.plan.errors.len() > st.plan.errors.len() {
        assert(next.plan.errors.drop_last() =~= st.plan.errors);
    }
    if next.plan.entries.len() > st.plan.entries.len() {
        assert(next.plan.entries.drop_last() =~= st.plan.entries);
    }
}

/// With `--preserve=links`, the second name of a file becomes a hard link to
/// the copy that its first name became; other files are copied each.
pub proof fn second_names_become_links(
    st: PlannerView,
    src1: Seq<u8>,
    dst1: Seq<u8>,
    m1: Meta,
    facts1: DestFacts,
    src2: Seq<u8>,
    dst2: Seq<u8>,
    m2: Meta,
    facts2: DestFacts,
    cfg: PlanConfig,
)
    requires
        st.seen.dom() == Set::<u128>::empty(),
        !facts1.is_link && facts1.file is None,
        !facts2.is_link && facts2.file is None,
    ensures
        ({
            let first = file_planned(st, src1, dst1, m1, facts1, cfg);
            let second = file_planned(first, src2, dst2, m2, facts2, cfg);
            let one_file = m1.dev == m2.dev && m1.ino == m2.ino;
            let kept = cfg.preserve_links && m1.nlink > 1 && m2.nlink > 1;
            &&& copies_only(st.plan, src1, dst1, m1, first.plan)
            &&& one_file && kept ==> adds_only(
                first.plan,
                EntryView::HardLink { link: dst1, dst: dst2 },
                second.plan,
            )
            &&& !one_file || !kept ==> copies_only(first.plan, src2, dst2, m2, second.plan)
        }),
{
    let first = file_planned(st, src1, dst1, m1, facts1, cfg);
    let second = file_planned(first, src2, dst2, m2, facts2, cfg);
    assert(first.plan.entries.drop_last() =~= st.plan.entries);
    assert(second.plan.entries.drop_last() =~= first.plan.entries);
    if crate::plan::id_key(m1.dev, m1.ino) == crate::plan::id_key(m2.dev, m2.ino) {
        crate::plan::id_key_is_injective(m1.dev, m1.ino, m2.dev, m2.ino);
    }
}

/// Each source is taken for what it is: what cannot be looked at and, without
/// `-r`, a directory, is refused; a link that is not followed stays a link; a
/// FIFO is made anew with `-r` and read without it or with `--copy-contents`;
/// of other special files none is copied with `-r` alone.
pub proof fn sources_are_taken_for_what_they_are(
    st: PlannerView,
    o: Observed,
    destination: Seq<u8>,
    dest_is_dir: bool,
    cwd: Seq<u8>,
    cfg: PlanConfig,
)
    ensures
        ({
            let src = o.spec.path@;
            let dst = dest_root(src, destination, dest_is_dir, cfg);
            let next = source_planned(st, o, destination, dest_is_dir, cwd, cfg);
            let kind = o.meta->Ok_0.kind;
            let stays_link = !o.spec.follow && cfg.deref == Deref::Never;
            let read = !cfg.recursive || cfg.copy_contents;
            &&& o.meta is Err ==> complains_only(st.plan, next.plan)
            &&& o.meta is Ok && kind == FileKind::Dir && !cfg.recursive ==> complains_only(
                st.plan,
                next.plan,
            )
            &&& o.meta is Ok && kind == FileKind::Symlink && stays_link ==> adds_only(
                st.plan,
                EntryView::Symlink { src, dst },
                next.plan,
            )
            &&& o.meta is Ok && kind == FileKind::Symlink && !stays_link && read ==> adds_only(
                st.plan,
                EntryView::Special { src, dst },
                next.plan,
            )
            &&& o.meta is Ok && kind == FileKind::Symlink && !stays_link && !read ==> complains_only(
                st.plan,
                next.plan,
            )
            &&& o.meta is Ok && kind == FileKind::Fifo ==> adds_only(
                st.plan,
                if read {
                    EntryView::Special { src, dst }
                } else {
                    EntryView::Fifo { src, dst }
                },
                next.plan,
            )
            &&& o.meta is Ok && kind == FileKind::Other && read ==> adds_only(
                st.plan,
                EntryView::Special { src, dst },
                next.plan,
            )
            &&& o.meta is Ok && kind == FileKind::Other && !read ==> complains_only(
                st.plan,
                next.plan,
            )
            &&& o.meta is Ok && kind == FileKind::File ==> next == file_planned(
                st,
                src,
                dst,
                o.meta->Ok_0,
                o.dest,
                cfg,
            )
        }),
{
    assert forall|t: Seq<char>| (#[trigger] st.plan.errors.push(t)).drop_last() == st.plan.errors by {
        assert(st.plan.errors.push(t).drop_last() =~= st.plan.errors);
    }
}

/// A link that the command line names is followed with `-L`, and without any
/// flag on links, and always when a slash stands behind it.
pub proof fn slashes_ask_to_follow(spec: SourceSpec, cfg: PlanConfig)
    ensures
        spec.follow ==> followed(spec, cfg),
        cfg.deref == Deref::Always || cfg.deref == Deref::CommandLine ==> followed(spec, cfg),
        !spec.follow && cfg.deref == Deref::Never ==> !followed(spec, cfg),
{
}

/// A directory that goes somewhere else comes first with all that the walk met
/// behind it; one that would go onto or into itself, by its name or by where
/// links lead, is refused.
pub proof fn directories_go_with_what_is_in_them(
    st: PlannerView,
    o: Observed,
    destination: Seq<u8>,
    dest_is_dir: bool,
    cwd: Seq<u8>,
    cfg: PlanConfig,
)
    requires
        o.meta is Ok && o.meta->Ok_0.kind == FileKind::Dir,
        cfg.recursive,
    ensures
        ({
            let src = o.spec.path@;
            let dst = dest_root(src, destination, dest_is_dir, cfg);
            let next = source_planned(st, o, destination, dest_is_dir, cwd, cfg);
            let apart = nesting_of(src, dst, cwd) == Nesting::Apart && nesting_of(
                o.places.source@,
                o.places.destination@,
                cwd,
            ) == Nesting::Apart;
            &&& !apart ==> complains_only(st.plan, next.plan)
            &&& apart && o.tree@.len() == 0 ==> adds_only(
                st.plan,
                EntryView::Dir { src, dst },
                next.plan,
            )
            &&& apart ==> next == crate::plan::walked_through(
                PlannerView {
                    plan: PlanView {
                        entries: st.plan.entries.push(EntryView::Dir { src, dst }),
                        ..st.plan
                    },
                    ..st
                },
                o.tree@,
                src,
                dst,
                o.meta->Ok_0.dev,
                cfg,
            ).planner
        }),
{
    assert forall|t: Seq<char>| (#[trigger] st.plan.errors.push(t)).drop_last() == st.plan.errors by {
        assert(st.plan.errors.push(t).drop_last() =~= st.plan.errors);
    }
}

/// Two places are the same when their ways, with `.` and `..` resolved, are the
/// same, and the second lies inside the first when its way goes on from there.
pub proof fn places_nest_by_their_ways(source: Seq<u8>, dst: Seq<u8>, cwd: Seq<u8>)
    requires
        is_abs(cwd),
    ensures
        ({
            let s = walked(parts(absolute_of(source, cwd)));
            let d = walked(parts(absolute_of(dst, cwd)));
            let under = s.len() <= d.len() && forall|k: int|
                0 <= k < s.len() ==> #[trigger] s[k] == d[k];
            &&& nesting_of(source, dst, cwd) == Nesting::Same <==> s == d
            &&& nesting_of(source, dst, cwd) == Nesting::Inside <==> under && s.len() < d.len()
            &&& nesting_of(source, dst, cwd) == Nesting::Apart <==> !under
        }),
{
    let a = absolute_of(source, cwd);
    let b = absolute_of(dst, cwd);
    let s = walked(parts(a));
    let d = walked(parts(b));
    if normalized(b) == normalized(a) {
        normalized_is_injective(a, b);
    }
    if s.len() <= d.len() {
        if d.take(s.len() as int) == s {
            assert forall|k: int| 0 <= k < s.len() implies #[trigger] s[k] == d[k] by {
                assert(d.take(s.len() as int)[k] == d[k]);
            }
        } else if forall|k: int| 0 <= k < s.len() ==> #[trigger] s[k] == d[k] {
            assert(d.take(s.len() as int) =~= s);
        }
        if s.len() == d.len() {
            assert(d.take(s.len() as int) =~= d);
        }
    }
}

/// On a way a `.` changes nothing, a name and `..` behind it take each other
/// back, and names alone stay as they are.
pub proof fn ways_take_back_their_names(ps: Seq<Seq<u8>>, x: Seq<u8>)
    requires
        is_name(x),
    ensures
        walked(ps.push(x)) == walked(ps).push(x),
        walked(ps.push(dot())) == walked(ps),
        walked(ps.push(x).push(dotdot())) == walked(ps),
        walked(Seq::<Seq<u8>>::empty().push(dotdot())) == Seq::<Seq<u8>>::empty(),
        all_names(ps) ==> walked(ps) == ps,
    decreases ps.len(),
{
    reveal_with_fuel(walked, 3);
    assert(ps.push(x).drop_last() =~= ps);
    assert(ps.push(dot()).drop_last() =~= ps);
    assert(ps.push(x).push(dotdot()).drop_last() =~= ps.push(x));
    assert(walked(ps).push(x).drop_last() =~= walked(ps));
    assert(Seq::<Seq<u8>>::empty().push(dotdot()).drop_last() =~= Seq::<Seq<u8>>::empty());
    assert(walked(ps.push(x)) == walked(ps).push(x));
    assert(dot() != dotdot()) by {
        assert(dot().len() != dotdot().len());
    }
    if all_names(ps) && ps.len() > 0 {
        assert(is_name(ps[ps.len() - 1]));
        assert forall|k: int| 0 <= k < ps.drop_last().len() implies is_name(
            #[trigger] ps.drop_last()[k],
        ) by {
            assert(is_name(ps[k]));
        }
        ways_take_back_their_names(ps.drop_last(), x);
        assert(ps.drop_last().push(ps.last()) =~= ps);
    }
}

/// What the walk could not read is told, and nothing else comes of it.
pub proof fn unreadable_places_are_told(
    st: PlannerView,
    ev: TreeEvent,
    src_root: Seq<u8>,
    dst_root: Seq<u8>,
    root_dev: u64,
    cfg: PlanConfig,
)
    requires
        ev.what is Unreadable,
    ensures
        complains_only(
            st.plan,
            event_planned(st, ev, src_root, dst_root, root_dev, cfg).plan,
        ),
        !is_pruned(ev, src_root, root_dev, cfg),
{
    let next = event_planned(st, ev, src_root, dst_root, root_dev, cfg);
    assert(next.plan.errors.drop_last() =~= st.plan.errors);
}

} // verus!
