//! Where sources and what is in them go, and which entries are left out.

use vstd::prelude::*;

use crate::exclude::{glob_matches, set_globs};
use crate::mvops::move_target;
use crate::path::{
    all_names, below, dot, dotdot, file_name_of, is_abs, is_name, join_of, joined, lemma_join_name,
    lemma_parent_is_shorter, lemma_parts_plain, lemma_push_name, lemma_slash_at_end, lemma_spans_ok,
    parent_of, parts, seg_start, spans, spans_to, DOT, SLASH,
};
use crate::plan::{
    dest_root, event_planned, is_pruned, walked_through, EntryView, FileKind, PlanConfig, PlanView,
    PlannerView, Sighting, TreeEvent,
};
use crate::plan_laws::deeper;

verus! {

// ---------------------------------------------------------------------------
// The way below a directory
// ---------------------------------------------------------------------------

/// What stands in front of the names of a path that goes on from `p`.
spec fn front(p: Seq<u8>) -> Seq<u8> {
    if p.len() > 0 && p.last() != SLASH {
        p.push(SLASH)
    } else {
        p
    }
}

proof fn lemma_init_names(names: Seq<Seq<u8>>)
    requires
        all_names(names),
        names.len() > 0,
    ensures
        all_names(names.drop_last()),
        is_name(names.last()),
{
    assert(is_name(names[names.len() - 1]));
    assert forall|k: int| 0 <= k < names.drop_last().len() implies is_name(
        #[trigger] names.drop_last()[k],
    ) by {
        assert(is_name(names[k]));
    }
}

proof fn lemma_joined_end(names: Seq<Seq<u8>>)
    requires
        all_names(names),
        names.len() > 0,
    ensures
        joined(names).len() > 0,
        joined(names).last() != SLASH,
        joined(names)[0] != SLASH,
    decreases names.len(),
{
    lemma_init_names(names);
    assert(is_name(names[0]));
    let x = names.last();
    assert(x[x.len() - 1] != SLASH);
    if names.len() > 1 {
        lemma_joined_end(names.drop_last());
        assert(joined(names).last() == x.last());
        assert(joined(names)[0] == joined(names.drop_last())[0]);
    } else {
        assert(names[0][0] != SLASH);
    }
}

/// The path that goes on from `p` through `names`, byte by byte and part by
/// part.
proof fn lemma_deeper_path(p: Seq<u8>, names: Seq<Seq<u8>>)
    requires
        all_names(names),
        names.len() > 0,
    ensures
        ({
            let q = deeper(p, names);
            let n = spans(p).len() as int;
            &&& q == front(p) + joined(names)
            &&& parts(q) == parts(p) + names
            &&& spans(q).len() == n + names.len()
            &&& spans(q)[n].0 == front(p).len()
            &&& spans(q).last().1 == q.len()
            &&& is_abs(q) == is_abs(p)
        }),
    decreases names.len(),
{
    lemma_init_names(names);
    let init = names.drop_last();
    let x = names.last();
    let q = deeper(p, names);
    let n = spans(p).len() as int;
    lemma_join_name(deeper(p, init), x);
    assert(!is_abs(x)) by {
        assert(x[0] != SLASH);
    }
    if names.len() == 1 {
        assert(deeper(p, init) == p);
        assert(joined(names) == x);
        assert(q =~= front(p) + x);
        assert(names =~= seq![x]);
        assert(parts(q) =~= parts(p) + names);
        if p.len() == 0 {
            lemma_spans_ok(x);
            lemma_lone_span(x);
        } else if p.last() == SLASH {
            let r = p.drop_last();
            assert(p =~= r.push(SLASH));
            lemma_slash_at_end(r);
            lemma_push_name(r, x);
            assert(spans(r).len() == parts(r).len());
            assert(spans(p).len() == parts(p).len());
        } else {
            lemma_push_name(p, x);
        }
    } else {
        let d = deeper(p, init);
        lemma_deeper_path(p, init);
        lemma_joined_end(init);
        assert(d.last() == joined(init).last());
        assert(q == d.push(SLASH) + x);
        lemma_push_name(d, x);
        assert(q =~= front(p) + joined(names));
        assert(parts(q) =~= parts(p) + names) by {
            assert(init.push(x) =~= names);
        }
    }
}

/// A single name is one part, from its start to its end.
proof fn lemma_lone_span(x: Seq<u8>)
    requires
        is_name(x),
    ensures
        spans(x).len() == 1,
        spans(x)[0] == (0int, x.len() as int),
        spans(Seq::<u8>::empty()).len() == 0,
{
    let e = Seq::<u8>::empty();
    lemma_join_name(e, x);
    assert(join_of(e, x) =~= x);
    assert(parts(e) =~= Seq::empty());
    assert(spans(x).len() == parts(x).len());
    lemma_spans_ok(x);
    let s = spans(x)[0];
    assert(parts(x)[0] == x.subrange(s.0, s.1));
    assert(parts(x)[0] == x);
    assert(x.subrange(s.0, s.1).len() == s.1 - s.0);
}

proof fn lemma_some_part(p: Seq<u8>)
    requires
        p.len() > 0,
        p[0] != SLASH,
    ensures
        parts(p).len() > 0,
    decreases p.len(),
{
    let n = p.len() as int;
    if p.last() == SLASH {
        let q = p.drop_last();
        assert(p =~= q.push(SLASH));
        lemma_slash_at_end(q);
        assert(q[0] == p[0]);
        lemma_some_part(q);
    } else {
        let s = seg_start(p, n);
        lemma_start_of_last(p, n);
        if s > 0 {
            let q = p.take(s - 1);
            if !(n == s + 1 && p[s] == DOT) {
                assert(spans(p).len() > 0);
            } else {
                assert(p =~= q.push(SLASH).push(DOT));
                lemma_dot_at_end(q);
                assert(q[0] == p[0]);
                lemma_some_part(q);
            }
        }
    }
}

proof fn lemma_start_of_last(p: Seq<u8>, i: int)
    requires
        0 < i <= p.len(),
        p[i - 1] != SLASH,
    ensures
        0 <= seg_start(p, i) < i,
        seg_start(p, i) > 0 ==> p[seg_start(p, i) - 1] == SLASH,
        seg_start(p, i) == 1 ==> p[0] == SLASH,
    decreases i,
{
    if i > 1 && p[i - 2] != SLASH {
        lemma_start_of_last(p, i - 1);
    } else {
        assert(seg_start(p, i) == seg_start(p, i - 1));
    }
}

/// A `.` behind a slash adds no part.
proof fn lemma_dot_at_end(p: Seq<u8>)
    ensures
        parts(p.push(SLASH).push(DOT)) == parts(p.push(SLASH)),
        parts(p.push(SLASH).push(DOT)) == parts(p),
{
    let q = p.push(SLASH);
    let r = q.push(DOT);
    let n = q.len() as int;
    lemma_slash_at_end(p);
    lemma_same_front(q, r, n);
    assert(r[n] == DOT && r[n - 1] == SLASH);
    assert(seg_start(r, n) == n);
    assert(seg_start(r, n + 1) == n);
    assert(spans_to(r, n + 1) == spans_to(r, n));
    assert(seg_start(q, n) == n);
    assert(spans(r) =~= spans(q));
    lemma_spans_ok(q);
    assert(parts(r) =~= parts(q)) by {
        assert forall|k: int| 0 <= k < parts(r).len() implies parts(r)[k] == parts(q)[k] by {
            assert(spans(q)[k].1 <= n);
            assert(r.subrange(spans(q)[k].0, spans(q)[k].1) =~= q.subrange(
                spans(q)[k].0,
                spans(q)[k].1,
            ));
        }
    }
}

proof fn lemma_same_front(p: Seq<u8>, q: Seq<u8>, i: int)
    requires
        0 <= i <= p.len(),
        i <= q.len(),
        forall|j: int| 0 <= j < i ==> p[j] == q[j],
    ensures
        seg_start(p, i) == seg_start(q, i),
        spans_to(p, i) == spans_to(q, i),
        0 <= seg_start(p, i) <= i,
    decreases i,
{
    if i > 0 {
        lemma_same_front(p, q, i - 1);
    }
}

proof fn lemma_below(p: Seq<u8>, names: Seq<Seq<u8>>)
    requires
        all_names(names),
        names.len() > 0,
    ensures
        below(deeper(p, names), p) == Some(joined(names)),
{
    let q = deeper(p, names);
    let n = spans(p).len() as int;
    lemma_deeper_path(p, names);
    assert(parts(p).len() == n);
    assert(q.subrange(front(p).len() as int, q.len() as int) =~= joined(names));
    if !is_abs(p) && n == 0 {
        if p.len() > 0 {
            lemma_some_part(p);
        }
        assert(q.take(q.len() as int) =~= q);
        assert(q =~= joined(names));
    } else {
        assert((parts(p) + names).take(n) =~= parts(p));
    }
}

// ---------------------------------------------------------------------------
// What is left out
// ---------------------------------------------------------------------------

/// Some pattern of the configuration matches these bytes.
pub open spec fn some_pattern_matches(cfg: PlanConfig, bytes: Seq<u8>) -> bool {
    match cfg.exclude {
        Some(set) => exists|i: int|
            0 <= i < set_globs(set).len() && glob_matches(#[trigger] set_globs(set)[i], bytes),
        None => false,
    }
}

/// Patterns see all names on the way below the source, with slashes between
/// them: an entry is left out, and counted as such, exactly when some pattern
/// matches that, and the walk stays out of a directory exactly when it is left
/// out or lies on another file system under `-x`.
pub proof fn patterns_see_the_way_below_the_source(
    st: PlannerView,
    ev: TreeEvent,
    src_root: Seq<u8>,
    names: Seq<Seq<u8>>,
    dst_root: Seq<u8>,
    root_dev: u64,
    cfg: PlanConfig,
)
    requires
        all_names(names),
        names.len() > 0,
        ev.what matches Sighting::Entry { path, .. } && path.bytes@ == deeper(src_root, names),
    ensures
        ({
            let next = event_planned(st, ev, src_root, dst_root, root_dev, cfg);
            let (kind, meta) = (ev.what->kind, ev.what->meta);
            let out = some_pattern_matches(cfg, joined(names));
            let foreign = cfg.one_file_system && meta is Ok && meta->Ok_0.dev != root_dev;
            &&& out ==> next.plan == (PlanView { excluded: st.plan.excluded + 1, ..st.plan })
                && next.seen == st.seen
            &&& !out ==> next.plan.excluded == st.plan.excluded
            &&& is_pruned(ev, src_root, root_dev, cfg) <==> kind == FileKind::Dir && (out
                || foreign)
            &&& !out && kind == FileKind::Dir && foreign ==> next.plan == (PlanView {
                skipped: st.plan.skipped.push(deeper(src_root, names)),
                ..st.plan
            })
        }),
{
    lemma_below(src_root, names);
}

/// A tree keeps its shape: what lies below the source under some names goes
/// below the place of the source under the same names, as what it is.
pub proof fn trees_keep_their_shape(
    st: PlannerView,
    ev: TreeEvent,
    src_root: Seq<u8>,
    names: Seq<Seq<u8>>,
    dst_root: Seq<u8>,
    root_dev: u64,
    cfg: PlanConfig,
)
    requires
        all_names(names),
        names.len() > 0,
        ev.what matches Sighting::Entry { path, .. } && path.bytes@ == deeper(src_root, names),
        !some_pattern_matches(cfg, joined(names)),
        cfg.one_file_system && ev.what->kind == FileKind::Dir ==> (ev.what->meta matches Ok(m)
            ==> m.dev == root_dev),
    ensures
        ({
            let next = event_planned(st, ev, src_root, dst_root, root_dev, cfg).plan;
            let src = deeper(src_root, names);
            let dst = deeper(dst_root, names);
            let (kind, meta, dest) = (ev.what->kind, ev.what->meta, ev.what->dest);
            let one = |e: EntryView| next == (PlanView { entries: st.plan.entries.push(e), ..st.plan });
            &&& kind == FileKind::Dir ==> one(EntryView::Dir { src, dst })
            &&& kind == FileKind::Symlink ==> one(EntryView::Symlink { src, dst })
            &&& kind == FileKind::Fifo && !cfg.copy_contents ==> one(EntryView::Fifo { src, dst })
            &&& (kind == FileKind::Fifo || kind == FileKind::Other) && cfg.copy_contents ==> one(
                EntryView::Special { src, dst },
            )
            &&& kind == FileKind::Other && !cfg.copy_contents ==> next == (PlanView {
                skipped: st.plan.skipped.push(src),
                ..st.plan
            })
            &&& kind == FileKind::File ==> next.skipped == st.plan.skipped
            &&& kind == FileKind::File && meta is Err ==> next.entries == st.plan.entries
                && next.errors.len() == st.plan.errors.len() + 1
            &&& kind == FileKind::File && meta is Ok && !dest.is_link && dest.file is None && (
            meta->Ok_0.nlink <= 1 || !cfg.preserve_links) ==> {
                &&& next.entries.len() == st.plan.entries.len() + 1
                &&& next.entries.last() is File
                &&& next.entries.last()->File_src == src
                &&& next.entries.last()->File_dst == dst
                &&& next.entries.last()->File_size == meta->Ok_0.len
                &&& next.total_bytes == st.plan.total_bytes + meta->Ok_0.len
                &&& next.file_count == st.plan.file_count + 1
                &&& next.errors == st.plan.errors
            }
        }),
{
    lemma_below(src_root, names);
    lemma_deeper_path(dst_root, names);
    lemma_joined_end(names);
    assert(join_of(dst_root, joined(names)) =~= deeper(dst_root, names));
}

/// The event at `i` comes from below the directory that the event at `j` is
/// about.
pub open spec fn comes_from_below(evs: Seq<TreeEvent>, j: int, i: int) -> bool {
    forall|k: int| j < k <= i ==> #[trigger] evs[k].depth > evs[j].depth
}

/// The walk stays out of what the event at `i` is about: it lies below a
/// directory that is left out or belongs to another file system.
pub open spec fn is_out_of_the_way(
    evs: Seq<TreeEvent>,
    i: int,
    src_root: Seq<u8>,
    root_dev: u64,
    cfg: PlanConfig,
) -> bool {
    exists|j: int|
        0 <= j < i && is_pruned(#[trigger] evs[j], src_root, root_dev, cfg) && comes_from_below(
            evs,
            j,
            i,
        )
}

proof fn lemma_walk(
    st: PlannerView,
    evs: Seq<TreeEvent>,
    src_root: Seq<u8>,
    dst_root: Seq<u8>,
    root_dev: u64,
    cfg: PlanConfig,
)
    ensures
        ({
            let n = evs.len() as int;
            match walked_through(st, evs, src_root, dst_root, root_dev, cfg).pruned {
                Some(d) => {
                    &&& exists|j: int|
                        0 <= j < n && is_pruned(#[trigger] evs[j], src_root, root_dev, cfg)
                            && evs[j].depth == d && comes_from_below(evs, j, n - 1)
                    &&& forall|j: int|
                        0 <= j < n && is_pruned(#[trigger] evs[j], src_root, root_dev, cfg)
                            && comes_from_below(evs, j, n - 1) ==> d <= evs[j].depth
                },
                None => forall|j: int|
                    0 <= j < n && is_pruned(#[trigger] evs[j], src_root, root_dev, cfg)
                        ==> !comes_from_below(evs, j, n - 1),
            }
        }),
    decreases evs.len(),
{
    if evs.len() > 0 {
        let n = evs.len() as int;
        let before = evs.drop_last();
        let ev = evs.last();
        lemma_walk(st, before, src_root, dst_root, root_dev, cfg);
        let w = walked_through(st, before, src_root, dst_root, root_dev, cfg);
        assert forall|j: int| 0 <= j < n - 1 implies (#[trigger] comes_from_below(evs, j, n - 1)
            <==> comes_from_below(before, j, n - 2) && ev.depth > evs[j].depth) by {
            assert(evs[j] == before[j]);
            if comes_from_below(evs, j, n - 1) {
                assert(evs[n - 1].depth > evs[j].depth);
                assert forall|k: int| j < k <= n - 2 implies #[trigger] before[k].depth
                    > before[j].depth by {
                    assert(evs[k].depth > evs[j].depth);
                }
            }
            if comes_from_below(before, j, n - 2) && ev.depth > evs[j].depth {
                assert forall|k: int| j < k <= n - 1 implies #[trigger] evs[k].depth
                    > evs[j].depth by {
                    if k < n - 1 {
                        assert(before[k].depth > before[j].depth);
                    }
                }
            }
        }
        if crate::plan::is_hidden(w.pruned, ev) {
            let d = w.pruned.unwrap();
            let j = choose|j: int|
                0 <= j < n - 1 && is_pruned(#[trigger] before[j], src_root, root_dev, cfg)
                    && before[j].depth == d && comes_from_below(before, j, n - 2);
            assert(evs[j] == before[j]);
            assert(comes_from_below(evs, j, n - 1));
            assert forall|j: int|
                0 <= j < n && is_pruned(#[trigger] evs[j], src_root, root_dev, cfg)
                    && comes_from_below(evs, j, n - 1) implies d <= evs[j].depth by {
                if j < n - 1 {
                    assert(is_pruned(before[j], src_root, root_dev, cfg));
                }
            }
        } else {
            assert(comes_from_below(evs, n - 1, n - 1));
            assert forall|j: int|
                0 <= j < n - 1 && is_pruned(
                    #[trigger] evs[j],
                    src_root,
                    root_dev,
                    cfg,
                ) implies !comes_from_below(evs, j, n - 1) by {
                assert(is_pruned(before[j], src_root, root_dev, cfg));
            }
            if is_pruned(ev, src_root, root_dev, cfg) {
                assert(evs[n - 1] == ev);
            }
        }
    }
}

/// The walk stays out of what lies below a directory that is left out, and of
/// nothing else: every other event goes into the plan.
pub proof fn the_walk_stays_out_of_pruned_directories_alone(
    st: PlannerView,
    evs: Seq<TreeEvent>,
    src_root: Seq<u8>,
    dst_root: Seq<u8>,
    root_dev: u64,
    cfg: PlanConfig,
)
    requires
        evs.len() > 0,
    ensures
        ({
            let before = walked_through(st, evs.drop_last(), src_root, dst_root, root_dev, cfg);
            walked_through(st, evs, src_root, dst_root, root_dev, cfg).planner == if is_out_of_the_way(
                evs,
                evs.len() - 1,
                src_root,
                root_dev,
                cfg,
            ) {
                before.planner
            } else {
                event_planned(before.planner, evs.last(), src_root, dst_root, root_dev, cfg)
            }
        }),
{
    let n = evs.len() as int;
    let before = evs.drop_last();
    lemma_walk(st, before, src_root, dst_root, root_dev, cfg);
    let w = walked_through(st, before, src_root, dst_root, root_dev, cfg);
    if is_out_of_the_way(evs, n - 1, src_root, root_dev, cfg) {
        let j = choose|j: int|
            0 <= j < n - 1 && is_pruned(#[trigger] evs[j], src_root, root_dev, cfg)
                && comes_from_below(evs, j, n - 1);
        assert(is_pruned(before[j], src_root, root_dev, cfg));
        assert(evs[n - 1].depth > evs[j].depth);
        assert(comes_from_below(before, j, n - 2)) by {
            assert forall|k: int| j < k <= n - 2 implies #[trigger] before[k].depth
                > before[j].depth by {
                assert(evs[k].depth > evs[j].depth);
            }
        }
    } else if w.pruned is Some {
        let j = choose|j: int|
            0 <= j < n - 1 && is_pruned(#[trigger] before[j], src_root, root_dev, cfg)
                && before[j].depth == w.pruned.unwrap() && comes_from_below(before, j, n - 2);
        assert(is_pruned(evs[j], src_root, root_dev, cfg));
        if evs[n - 1].depth > evs[j].depth {
            assert forall|k: int| j < k <= n - 1 implies #[trigger] evs[k].depth
                > evs[j].depth by {
                if k < n - 1 {
                    assert(before[k].depth > before[j].depth);
                }
            }
            assert(comes_from_below(evs, j, n - 1));
        }
    }
}

// ---------------------------------------------------------------------------
// Where a source goes
// ---------------------------------------------------------------------------

/// An existing directory, or a name that ends with a slash, receives a source
/// inside, under the last name of the source, whether or not slashes follow
/// that; without either, or under `-T`, the destination itself is the place.
/// So it is for copies and for moves.
pub proof fn directories_receive_sources_inside(
    source: Seq<u8>,
    destination: Seq<u8>,
    dest_is_dir: bool,
    cfg: PlanConfig,
)
    requires
        !cfg.parents,
    ensures
        ({
            let to = dest_root(source, destination, dest_is_dir, cfg);
            let receives = !cfg.dest_never_dir && (dest_is_dir || (destination.len() > 0
                && destination.last() == SLASH));
            &&& to == move_target(source, destination, dest_is_dir, cfg.dest_never_dir)
            &&& !receives ==> to == destination
            &&& receives && parts(source).len() > 0 && is_name(parts(source).last()) ==> parts(to)
                == parts(destination).push(parts(source).last()) && is_abs(to) == is_abs(
                destination,
            )
            &&& receives && (parts(source).len() == 0 || !is_name(parts(source).last())) ==> to
                == destination
        }),
{
    lemma_parts_plain(source);
    let ps = parts(source);
    if ps.len() > 0 {
        let x = ps[ps.len() - 1];
        assert(x.len() > 0 && forall|j: int| 0 <= j < x.len() ==> x[j] != SLASH);
        if is_name(x) {
            lemma_join_name(destination, x);
        }
    }
}

/// Slashes at the end of a source change nothing about where it goes.
pub proof fn slashes_do_not_change_the_place(
    source: Seq<u8>,
    destination: Seq<u8>,
    dest_is_dir: bool,
    cfg: PlanConfig,
)
    ensures
        dest_root(source.push(SLASH), destination, dest_is_dir, cfg) == dest_root(
            source,
            destination,
            dest_is_dir,
            cfg,
        ),
{
    lemma_slash_at_end(source);
}

/// With `--parents` the whole way of the source is built below the destination.
pub proof fn parents_build_the_whole_way(
    source: Seq<u8>,
    destination: Seq<u8>,
    dest_is_dir: bool,
    cfg: PlanConfig,
)
    requires
        cfg.parents,
        all_names(parts(source)),
        parts(source).len() > 0,
    ensures
        dest_root(source, destination, dest_is_dir, cfg) == deeper(destination, parts(source)),
        parts(dest_root(source, destination, dest_is_dir, cfg)) == parts(destination) + parts(
            source,
        ),
{
    let ps = parts(source);
    lemma_no_dots(ps);
    lemma_deeper_path(destination, ps);
    lemma_joined_end(ps);
    assert(join_of(destination, joined(ps)) =~= deeper(destination, ps));
}

/// With `--parents` a `.` in front of the way of the source does not count.
pub proof fn a_leading_dot_does_not_count(
    source: Seq<u8>,
    destination: Seq<u8>,
    dest_is_dir: bool,
    cfg: PlanConfig,
)
    requires
        cfg.parents,
        parts(source).len() > 1,
        parts(source)[0] == dot(),
        all_names(parts(source).skip(1)),
    ensures
        dest_root(source, destination, dest_is_dir, cfg) == deeper(
            destination,
            parts(source).skip(1),
        ),
{
    let ps = parts(source);
    let names = ps.skip(1);
    let keep = |x: Seq<u8>| x != dot();
    lemma_no_dots(names);
    assert(ps =~= seq![dot()] + names);
    lemma_dot_first(names);
    lemma_deeper_path(destination, names);
    lemma_joined_end(names);
    assert(join_of(destination, joined(names)) =~= deeper(destination, names));
}

proof fn lemma_dot_first(names: Seq<Seq<u8>>)
    ensures
        (seq![dot()] + names).filter(|x: Seq<u8>| x != dot()) == names.filter(
            |x: Seq<u8>| x != dot(),
        ),
    decreases names.len(),
{
    reveal(Seq::filter);
    let keep = |x: Seq<u8>| x != dot();
    let all = seq![dot()] + names;
    if names.len() == 0 {
        assert(all.drop_last() =~= Seq::empty());
        assert(all.last() == dot());
        assert(all.drop_last().filter(keep) =~= Seq::empty());
    } else {
        lemma_dot_first(names.drop_last());
        assert(all.drop_last() =~= seq![dot()] + names.drop_last());
        assert(all.last() == names.last());
    }
}

/// A slash, and a dot behind it, at the end of a path change none of its parts;
/// a name behind it is one part more.
pub proof fn parts_are_names_between_slashes(p: Seq<u8>, x: Seq<u8>)
    requires
        is_name(x),
    ensures
        parts(p.push(SLASH)) == parts(p),
        parts(p.push(SLASH).push(DOT)) == parts(p),
        p.len() > 0 ==> parts(p.push(SLASH) + x) == parts(p).push(x),
        parts(x) == seq![x],
        parts(dot()) == seq![dot()],
        parts(dotdot()) == seq![dotdot()],
{
    lemma_slash_at_end(p);
    lemma_dot_at_end(p);
    lemma_push_name(p, x);
    lemma_lone_span(x);
    assert(x.subrange(0, x.len() as int) =~= x);
    assert(parts(x) =~= seq![x]);
    let d = dot();
    reveal_with_fuel(spans_to, 3);
    reveal_with_fuel(seg_start, 3);
    assert(d.subrange(0, 1) =~= d);
    assert(spans(d) =~= seq![(0int, 1int)]);
    assert(parts(d) =~= seq![d]);
    let e = dotdot();
    assert(e.subrange(0, 2) =~= e);
    assert(spans(e) =~= seq![(0int, 2int)]);
    assert(parts(e) =~= seq![e]);
}

proof fn lemma_no_dots(ps: Seq<Seq<u8>>)
    requires
        all_names(ps),
    ensures
        ps.filter(|x: Seq<u8>| x != dot()) == ps,
    decreases ps.len(),
{
    reveal(Seq::filter);
    if ps.len() > 0 {
        lemma_init_names(ps);
        lemma_no_dots(ps.drop_last());
        assert(ps.drop_last().push(ps.last()) =~= ps);
    }
}

/// A path that has a part has a directory that it is in, and goes through all
/// of its parts but the last; its name is the last part, when that is a name.
pub proof fn a_path_is_its_directory_and_its_name(p: Seq<u8>)
    requires
        parts(p).len() > 0,
    ensures
        parent_of(p) is Some,
        parts(p).last() != dot() && parts(p).last() != dotdot()
            <==> file_name_of(p) is Some,
        file_name_of(p) matches Some(x) ==> x == parts(p).last(),
        parts(p).len() > 1 ==> is_abs(parent_of(p).unwrap()) == is_abs(p),
        is_abs(parent_of(p).unwrap()) ==> is_abs(p),
        parent_of(p).unwrap().len() < p.len(),
        parent_of(p).unwrap() == p.take(parent_of(p).unwrap().len() as int),
{
    lemma_spans_ok(p);
    lemma_parent_is_shorter(p);
    assert(spans(p).len() == parts(p).len());
    let sp = spans(p);
    if sp.len() >= 2 {
        let s = sp[sp.len() - 2];
        assert(0 <= s.0 < s.1 <= p.len());
    } else {
        assert(p.take(0) =~= Seq::empty());
    }
}

} // verus!
