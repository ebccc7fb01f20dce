//! What holds of every plan.

use vstd::prelude::*;

use crate::path::{
    absolute_of, all_names, goes_through, is_abs, is_name, join_of, lemma_join_name,
    lemma_slash_at_end, normalized_is_injective, parts, walked, SLASH,
};
use crate::plan::{
    dest_root, event_planned, file_planned, fresh, id_key, is_hidden, is_pruned, left_out, relative,
    source_planned, sources_planned, tree_planned, walked_through, write_through,
    nesting_of, real_nesting_of, DestFacts, EntryView, FileKind, Meta, Nesting, Observed,
    PlanConfig, PlanView, PlannerView, RealPlaces, Sighting, TreeEvent,
};

verus! {

/// The bytes in the files among `es`.
pub open spec fn bytes_in(es: Seq<EntryView>) -> int
    decreases es.len(),
{
    if es.len() == 0 {
        0
    } else {
        bytes_in(es.drop_last()) + match es.last() {
            EntryView::File { size, .. } => size as int,
            _ => 0,
        }
    }
}

/// How many of `es` are files.
pub open spec fn files_in(es: Seq<EntryView>) -> int
    decreases es.len(),
{
    if es.len() == 0 {
        0
    } else {
        files_in(es.drop_last()) + if es.last() is File {
            1int
        } else {
            0
        }
    }
}

/// Some file among `es` is copied to `dst`.
pub open spec fn copied_to(es: Seq<EntryView>, dst: Seq<u8>) -> bool {
    exists|i: int| 0 <= i < es.len() && is_copy_to(#[trigger] es[i], dst)
}

/// `e` copies a file to `dst`.
pub open spec fn is_copy_to(e: EntryView, dst: Seq<u8>) -> bool {
    match e {
        EntryView::File { dst: d, .. } => d == dst,
        _ => false,
    }
}

/// Every hard link among `es` leads to a copy that comes before it.
pub open spec fn links_lead_back(es: Seq<EntryView>) -> bool {
    forall|i: int|
        0 <= i < es.len() ==> match #[trigger] es[i] {
            EntryView::HardLink { link, .. } => copied_to(es.take(i), link),
            _ => true,
        }
}

/// The totals are those of the entries, every file met before has a copy among
/// them, and every hard link leads to an earlier copy.
pub open spec fn consistent(st: PlannerView) -> bool {
    &&& st.plan.total_bytes == bytes_in(st.plan.entries)
    &&& st.plan.file_count == files_in(st.plan.entries)
    &&& links_lead_back(st.plan.entries)
    &&& forall|k: u128|
        st.seen.dom().contains(k) ==> copied_to(st.plan.entries, #[trigger] st.seen[k])
}

/// Planning only adds: what was planned and said before is still there.
pub open spec fn extends(a: PlanView, b: PlanView) -> bool {
    &&& a.entries.len() <= b.entries.len() && b.entries.take(a.entries.len() as int) == a.entries
    &&& a.errors.len() <= b.errors.len() && b.errors.take(a.errors.len() as int) == a.errors
    &&& a.skipped.len() <= b.skipped.len() && b.skipped.take(a.skipped.len() as int) == a.skipped
}

proof fn lemma_extends_trans(a: PlanView, b: PlanView, c: PlanView)
    requires
        extends(a, b),
        extends(b, c),
    ensures
        extends(a, c),
{
    assert(c.entries.take(a.entries.len() as int) =~= b.entries.take(a.entries.len() as int));
    assert(c.errors.take(a.errors.len() as int) =~= b.errors.take(a.errors.len() as int));
    assert(c.skipped.take(a.skipped.len() as int) =~= b.skipped.take(a.skipped.len() as int));
}

proof fn lemma_extends_self(a: PlanView)
    ensures
        extends(a, a),
{
    assert(a.entries.take(a.entries.len() as int) =~= a.entries);
    assert(a.errors.take(a.errors.len() as int) =~= a.errors);
    assert(a.skipped.take(a.skipped.len() as int) =~= a.skipped);
}

proof fn lemma_copied_push(es: Seq<EntryView>, e: EntryView, dst: Seq<u8>)
    requires
        copied_to(es, dst) || is_copy_to(e, dst),
    ensures
        copied_to(es.push(e), dst),
{
    if is_copy_to(e, dst) {
        assert(is_copy_to(es.push(e)[es.len() as int], dst));
    } else {
        let i = choose|i: int| 0 <= i < es.len() && is_copy_to(#[trigger] es[i], dst);
        assert(is_copy_to(es.push(e)[i], dst));
    }
}

/// One more entry keeps a plan consistent, when a hard link leads to a copy.
proof fn lemma_push(st: PlannerView, next: PlannerView, e: EntryView)
    requires
        consistent(st),
        next.plan.entries == st.plan.entries.push(e),
        next.plan.errors == st.plan.errors,
        next.plan.skipped == st.plan.skipped,
        next.plan.total_bytes == st.plan.total_bytes + match e {
            EntryView::File { size, .. } => size as int,
            _ => 0,
        },
        next.plan.file_count == st.plan.file_count + if e is File {
            1int
        } else {
            0
        },
        match e {
            EntryView::HardLink { link, .. } => copied_to(st.plan.entries, link),
            _ => true,
        },
        forall|k: u128| #[trigger]
            next.seen.dom().contains(k) ==> (st.seen.dom().contains(k) && next.seen[k] == st.seen[k])
                || is_copy_to(e, next.seen[k]),
    ensures
        consistent(next),
        extends(st.plan, next.plan),
{
    let es = st.plan.entries;
    let ns = next.plan.entries;
    assert(ns.drop_last() =~= es);
    assert(ns.last() == e);
    assert forall|i: int| 0 <= i < ns.len() implies match #[trigger] ns[i] {
        EntryView::HardLink { link, .. } => copied_to(ns.take(i), link),
        _ => true,
    } by {
        if i < es.len() {
            assert(ns[i] == es[i]);
            assert(ns.take(i) =~= es.take(i));
        } else {
            assert(ns.take(i) =~= es);
        }
    }
    assert forall|k: u128| next.seen.dom().contains(k) implies copied_to(
        ns,
        #[trigger] next.seen[k],
    ) by {
        lemma_copied_push(es, e, next.seen[k]);
    }
    lemma_extends_self(st.plan);
    assert(ns.take(es.len() as int) =~= es);
}

/// A message, a path left aside or a number keeps a plan consistent.
proof fn lemma_aside(st: PlannerView, next: PlannerView)
    requires
        consistent(st),
        next.plan.entries == st.plan.entries,
        next.plan.total_bytes == st.plan.total_bytes,
        next.plan.file_count == st.plan.file_count,
        next.seen == st.seen,
        next.plan.errors == st.plan.errors || exists|m: Seq<char>|
            next.plan.errors == #[trigger] st.plan.errors.push(m),
        next.plan.skipped == st.plan.skipped || exists|p: Seq<u8>|
            next.plan.skipped == #[trigger] st.plan.skipped.push(p),
    ensures
        consistent(next),
        extends(st.plan, next.plan),
{
    lemma_extends_self(st.plan);
    assert(next.plan.errors.take(st.plan.errors.len() as int) =~= st.plan.errors);
    assert(next.plan.skipped.take(st.plan.skipped.len() as int) =~= st.plan.skipped);
}

proof fn lemma_file(
    st: PlannerView,
    src: Seq<u8>,
    dst: Seq<u8>,
    m: Meta,
    facts: DestFacts,
    cfg: PlanConfig,
)
    requires
        consistent(st),
    ensures
        consistent(file_planned(st, src, dst, m, facts, cfg)),
        extends(st.plan, file_planned(st, src, dst, m, facts, cfg).plan),
{
    let next = file_planned(st, src, dst, m, facts, cfg);
    match write_through(dst, facts, cfg.remove_destination) {
        None => {
            lemma_aside(st, next);
        },
        Some(to) => {
            let key = id_key(m.dev, m.ino);
            if facts.file == Some((m.dev, m.ino)) {
                lemma_aside(st, next);
            } else if cfg.preserve_links && m.nlink > 1 && st.seen.dom().contains(key) {
                lemma_push(st, next, EntryView::HardLink { link: st.seen[key], dst: to });
            } else {
                let e = next.plan.entries.last();
                assert(is_copy_to(e, to));
                assert forall|k: u128| #[trigger] next.seen.dom().contains(k) implies (
                st.seen.dom().contains(k) && next.seen[k] == st.seen[k]) || is_copy_to(
                    e,
                    next.seen[k],
                ) by {
                    if cfg.preserve_links && m.nlink > 1 && k == key {
                        assert(next.seen[k] == to);
                    }
                }
                lemma_push(st, next, e);
            }
        },
    }
}

proof fn lemma_event(
    st: PlannerView,
    ev: TreeEvent,
    src_root: Seq<u8>,
    dst_root: Seq<u8>,
    root_dev: u64,
    cfg: PlanConfig,
)
    requires
        consistent(st),
    ensures
        consistent(event_planned(st, ev, src_root, dst_root, root_dev, cfg)),
        extends(st.plan, event_planned(st, ev, src_root, dst_root, root_dev, cfg).plan),
{
    let next = event_planned(st, ev, src_root, dst_root, root_dev, cfg);
    match ev.what {
        Sighting::Unreadable(_) => {
            lemma_aside(st, next);
        },
        Sighting::Entry { path, kind, meta, dest } => {
            if next.plan.entries == st.plan.entries.push(next.plan.entries.last()) && !(kind
                == FileKind::File) {
                lemma_push(st, next, next.plan.entries.last());
            } else if kind == FileKind::File && meta is Ok && !left_out(path@, src_root, cfg) {
                lemma_file(
                    st,
                    path@,
                    join_of(dst_root, relative(path@, src_root)),
                    meta->Ok_0,
                    dest,
                    cfg,
                );
            } else {
                lemma_aside(st, next);
            }
        },
    }
}

proof fn lemma_walk(
    st: PlannerView,
    evs: Seq<TreeEvent>,
    src_root: Seq<u8>,
    dst_root: Seq<u8>,
    root_dev: u64,
    cfg: PlanConfig,
)
    requires
        consistent(st),
    ensures
        consistent(walked_through(st, evs, src_root, dst_root, root_dev, cfg).planner),
        extends(
            st.plan,
            walked_through(st, evs, src_root, dst_root, root_dev, cfg).planner.plan,
        ),
    decreases evs.len(),
{
    if evs.len() == 0 {
        lemma_extends_self(st.plan);
    } else {
        lemma_walk(st, evs.drop_last(), src_root, dst_root, root_dev, cfg);
        let w = walked_through(st, evs.drop_last(), src_root, dst_root, root_dev, cfg);
        if !is_hidden(w.pruned, evs.last()) {
            lemma_event(w.planner, evs.last(), src_root, dst_root, root_dev, cfg);
            let next = event_planned(w.planner, evs.last(), src_root, dst_root, root_dev, cfg);
            lemma_extends_trans(st.plan, w.planner.plan, next.plan);
        }
    }
}

proof fn lemma_tree(
    st: PlannerView,
    evs: Seq<TreeEvent>,
    src_root: Seq<u8>,
    dst_root: Seq<u8>,
    root_dev: u64,
    cfg: PlanConfig,
)
    requires
        consistent(st),
    ensures
        consistent(tree_planned(st, evs, src_root, dst_root, root_dev, cfg)),
        extends(st.plan, tree_planned(st, evs, src_root, dst_root, root_dev, cfg).plan),
        extends(
            st.with_entry(EntryView::Dir { src: src_root, dst: dst_root }).plan,
            tree_planned(st, evs, src_root, dst_root, root_dev, cfg).plan,
        ),
{
    let e = EntryView::Dir { src: src_root, dst: dst_root };
    let first = st.with_entry(e);
    lemma_push(st, first, e);
    lemma_walk(first, evs, src_root, dst_root, root_dev, cfg);
    lemma_extends_trans(
        st.plan,
        first.plan,
        tree_planned(st, evs, src_root, dst_root, root_dev, cfg).plan,
    );
}

/// A source that cannot be copied, like one that can, leaves alone what was
/// planned for the sources before it, and keeps the plan consistent.
pub proof fn source_only_adds(
    st: PlannerView,
    o: Observed,
    destination: Seq<u8>,
    dest_is_dir: bool,
    cwd: Seq<u8>,
    cfg: PlanConfig,
)
    requires
        consistent(st),
    ensures
        consistent(source_planned(st, o, destination, dest_is_dir, cwd, cfg)),
        extends(st.plan, source_planned(st, o, destination, dest_is_dir, cwd, cfg).plan),
{
    let src = o.spec.path@;
    let root = dest_root(src, destination, dest_is_dir, cfg);
    let next = source_planned(st, o, destination, dest_is_dir, cwd, cfg);
    match o.meta {
        Err(_) => {
            lemma_aside(st, next);
        },
        Ok(m) => {
            if m.kind == FileKind::Dir && cfg.recursive && real_nesting_of(
                src,
                root,
                o.places,
                cwd,
            ) == Nesting::Apart {
                lemma_tree(st, o.tree@, src, root, m.dev, cfg);
            } else if m.kind == FileKind::File {
                lemma_file(st, src, root, m, o.dest, cfg);
            } else if next.plan.entries == st.plan.entries.push(next.plan.entries.last()) {
                lemma_push(st, next, next.plan.entries.last());
            } else {
                lemma_aside(st, next);
            }
        },
    }
}

/// In every plan the totals are those of the entries, and every hard link
/// leads to a copy that is planned before it.
pub proof fn plans_add_up(
    obs: Seq<Observed>,
    destination: Seq<u8>,
    dest_is_dir: bool,
    cwd: Seq<u8>,
    cfg: PlanConfig,
)
    ensures
        consistent(sources_planned(obs, destination, dest_is_dir, cwd, cfg)),
    decreases obs.len(),
{
    if obs.len() > 0 {
        plans_add_up(obs.drop_last(), destination, dest_is_dir, cwd, cfg);
        source_only_adds(
            sources_planned(obs.drop_last(), destination, dest_is_dir, cwd, cfg),
            obs.last(),
            destination,
            dest_is_dir,
            cwd,
            cfg,
        );
    } else {
        assert(consistent(fresh()));
    }
}

/// Every source counts: it adds something to do or something to say.
pub proof fn no_source_is_lost(
    st: PlannerView,
    o: Observed,
    destination: Seq<u8>,
    dest_is_dir: bool,
    cwd: Seq<u8>,
    cfg: PlanConfig,
)
    requires
        consistent(st),
    ensures
        ({
            let next = source_planned(st, o, destination, dest_is_dir, cwd, cfg).plan;
            next.entries.len() > st.plan.entries.len() || next.errors.len() > st.plan.errors.len()
        }),
{
    if o.meta is Ok && o.meta->Ok_0.kind == FileKind::Dir {
        let src = o.spec.path@;
        let root = dest_root(src, destination, dest_is_dir, cfg);
        lemma_tree(st, o.tree@, src, root, o.meta->Ok_0.dev, cfg);
    }
}

/// Nothing below a directory that the walk stays out of changes the plan.
pub proof fn pruned_trees_are_left_out(
    st: PlannerView,
    before: Seq<TreeEvent>,
    dir: TreeEvent,
    inside: Seq<TreeEvent>,
    src_root: Seq<u8>,
    dst_root: Seq<u8>,
    root_dev: u64,
    cfg: PlanConfig,
)
    requires
        is_pruned(dir, src_root, root_dev, cfg),
        !is_hidden(
            walked_through(st, before, src_root, dst_root, root_dev, cfg).pruned,
            dir,
        ),
        forall|i: int| 0 <= i < inside.len() ==> (#[trigger] inside[i]).depth > dir.depth,
    ensures
        walked_through(st, before.push(dir) + inside, src_root, dst_root, root_dev, cfg)
            == walked_through(st, before.push(dir), src_root, dst_root, root_dev, cfg),
    decreases inside.len(),
{
    let top = before.push(dir);
    assert(top.drop_last() =~= before);
    if inside.len() == 0 {
        assert(top + inside =~= top);
    } else {
        pruned_trees_are_left_out(
            st,
            before,
            dir,
            inside.drop_last(),
            src_root,
            dst_root,
            root_dev,
            cfg,
        );
        assert((top + inside).drop_last() =~= top + inside.drop_last());
        assert((top + inside).last() == inside.last());
        assert(inside.last().depth > dir.depth);
    }
}

/// An entry that the patterns leave out adds nothing to do: it is counted.
pub proof fn left_out_entries_are_counted(
    st: PlannerView,
    ev: TreeEvent,
    src_root: Seq<u8>,
    dst_root: Seq<u8>,
    root_dev: u64,
    cfg: PlanConfig,
)
    requires
        ev.what matches Sighting::Entry { path, .. } && left_out(path@, src_root, cfg),
    ensures
        ({
            let next = event_planned(st, ev, src_root, dst_root, root_dev, cfg);
            next.plan == PlanView { excluded: st.plan.excluded + 1, ..st.plan } && next.seen
                == st.seen
        }),
{
}

/// How much a plan says: what is to be done, what went wrong, what is left
/// aside and what is left out.
pub open spec fn weight(p: PlanView) -> int {
    p.entries.len() + p.errors.len() + p.skipped.len() + p.excluded
}

/// Everything that the walk through a tree meets is accounted for, once: it is
/// done, left aside, left out, or a message says why not.
pub proof fn no_entry_is_lost(
    st: PlannerView,
    ev: TreeEvent,
    src_root: Seq<u8>,
    dst_root: Seq<u8>,
    root_dev: u64,
    cfg: PlanConfig,
)
    ensures
        weight(event_planned(st, ev, src_root, dst_root, root_dev, cfg).plan) == weight(st.plan)
            + 1,
{
}

/// When the walk stays out of nothing, a tree adds its root and everything
/// that the walk met.
pub proof fn whole_trees_are_planned(
    st: PlannerView,
    evs: Seq<TreeEvent>,
    src_root: Seq<u8>,
    dst_root: Seq<u8>,
    root_dev: u64,
    cfg: PlanConfig,
)
    requires
        forall|i: int|
            0 <= i < evs.len() ==> !is_pruned(#[trigger] evs[i], src_root, root_dev, cfg),
    ensures
        weight(tree_planned(st, evs, src_root, dst_root, root_dev, cfg).plan) == weight(st.plan)
            + 1 + evs.len(),
{
    lemma_all_visited(
        st.with_entry(EntryView::Dir { src: src_root, dst: dst_root }),
        evs,
        src_root,
        dst_root,
        root_dev,
        cfg,
    );
}

proof fn lemma_all_visited(
    st: PlannerView,
    evs: Seq<TreeEvent>,
    src_root: Seq<u8>,
    dst_root: Seq<u8>,
    root_dev: u64,
    cfg: PlanConfig,
)
    requires
        forall|i: int|
            0 <= i < evs.len() ==> !is_pruned(#[trigger] evs[i], src_root, root_dev, cfg),
    ensures
        ({
            let w = walked_through(st, evs, src_root, dst_root, root_dev, cfg);
            w.pruned is None && weight(w.planner.plan) == weight(st.plan) + evs.len()
        }),
    decreases evs.len(),
{
    if evs.len() > 0 {
        let short = evs.drop_last();
        assert forall|i: int| 0 <= i < short.len() implies !is_pruned(
            #[trigger] short[i],
            src_root,
            root_dev,
            cfg,
        ) by {
            assert(short[i] == evs[i]);
        }
        lemma_all_visited(st, short, src_root, dst_root, root_dev, cfg);
        let w = walked_through(st, short, src_root, dst_root, root_dev, cfg);
        no_entry_is_lost(w.planner, evs.last(), src_root, dst_root, root_dev, cfg);
        assert(!is_pruned(evs[evs.len() - 1], src_root, root_dev, cfg));
    }
}

/// A file with several names is copied once: under its next name it becomes a
/// hard link to that copy, and its bytes are not counted again.
pub proof fn next_name_is_a_link(
    st: PlannerView,
    src1: Seq<u8>,
    dst1: Seq<u8>,
    m1: Meta,
    facts1: DestFacts,
    src2: Seq<u8>,
    dst2: Seq<u8>,
    m2: Meta,
    facts2: DestFacts,
    cfg: PlanConfig,
)
    requires
        cfg.preserve_links,
        m1.nlink > 1,
        m2.nlink > 1,
        (m1.dev, m1.ino) == (m2.dev, m2.ino),
        write_through(dst1, facts1, cfg.remove_destination) is Some,
        write_through(dst2, facts2, cfg.remove_destination) is Some,
        facts1.file != Some((m1.dev, m1.ino)),
        facts2.file != Some((m2.dev, m2.ino)),
        !st.seen.dom().contains(id_key(m1.dev, m1.ino)),
    ensures
        ({
            let one = file_planned(st, src1, dst1, m1, facts1, cfg);
            let two = file_planned(one, src2, dst2, m2, facts2, cfg);
            &&& two == one.with_entry(
                EntryView::HardLink {
                    link: write_through(dst1, facts1, cfg.remove_destination).unwrap(),
                    dst: write_through(dst2, facts2, cfg.remove_destination).unwrap(),
                },
            )
            &&& two.plan.total_bytes == st.plan.total_bytes + m1.len
        }),
{
}

/// The path that goes on from `p` through `names`.
pub open spec fn deeper(p: Seq<u8>, names: Seq<Seq<u8>>) -> Seq<u8>
    decreases names.len(),
{
    if names.len() == 0 {
        p
    } else {
        join_of(deeper(p, names.drop_last()), names.last())
    }
}

proof fn lemma_absolute_join(p: Seq<u8>, x: Seq<u8>, cwd: Seq<u8>)
    requires
        is_name(x),
    ensures
        parts(absolute_of(join_of(p, x), cwd)) == parts(absolute_of(p, cwd)).push(x),
        is_abs(absolute_of(join_of(p, x), cwd)) == is_abs(absolute_of(p, cwd)),
{
    lemma_join_name(p, x);
    if !is_abs(p) {
        let top = absolute_of(p, cwd);
        if p.len() == 0 {
            assert(join_of(p, x) =~= x);
            lemma_join_name(cwd, x);
            lemma_slash_at_end(cwd);
            assert(top =~= cwd || top =~= cwd.push(SLASH));
        } else {
            assert(top.last() == p.last());
            assert(join_of(cwd, join_of(p, x)) =~= join_of(top, x));
            lemma_join_name(top, x);
        }
    }
}

proof fn lemma_deeper(p: Seq<u8>, names: Seq<Seq<u8>>, cwd: Seq<u8>)
    requires
        all_names(names),
    ensures
        walked(parts(absolute_of(deeper(p, names), cwd))) == walked(parts(absolute_of(p, cwd)))
            + names,
        is_abs(absolute_of(deeper(p, names), cwd)) == is_abs(absolute_of(p, cwd)),
    decreases names.len(),
{
    let top = walked(parts(absolute_of(p, cwd)));
    if names.len() == 0 {
        assert(top + names =~= top);
    } else {
        let init = names.drop_last();
        let x = names.last();
        assert(is_name(names[names.len() - 1]));
        assert forall|k: int| 0 <= k < init.len() implies is_name(#[trigger] init[k]) by {
            assert(is_name(names[k]));
        }
        lemma_deeper(p, init, cwd);
        lemma_absolute_join(deeper(p, init), x, cwd);
        let before = parts(absolute_of(deeper(p, init), cwd));
        assert(before.push(x).drop_last() =~= before);
        assert((top + init).push(x) =~= top + names);
    }
}

/// A place inside a directory, however deep, is known as such, wherever the
/// directory lies and however it is named.
pub proof fn places_inside_are_known(src: Seq<u8>, names: Seq<Seq<u8>>, cwd: Seq<u8>)
    requires
        all_names(names),
        names.len() > 0,
    ensures
        nesting_of(src, deeper(src, names), cwd) == Nesting::Inside,
        nesting_of(src, src, cwd) == Nesting::Same,
{
    let s = absolute_of(src, cwd);
    let d = absolute_of(deeper(src, names), cwd);
    lemma_deeper(src, names, cwd);
    normalized_is_injective(d, s);
    let top = walked(parts(s));
    assert((top + names).len() > top.len());
    assert((top + names).take(top.len() as int) =~= top);
    assert(goes_through(is_abs(s), top, is_abs(d), top + names));
}

/// No link hides a place inside a directory: whatever the two are called, it is
/// known once the links on the way are resolved.
pub proof fn links_hide_no_place_inside(
    src: Seq<u8>,
    dst: Seq<u8>,
    places: RealPlaces,
    names: Seq<Seq<u8>>,
    cwd: Seq<u8>,
)
    requires
        all_names(names),
        places.destination@ == deeper(places.source@, names),
    ensures
        real_nesting_of(src, dst, places, cwd) != Nesting::Apart,
{
    if names.len() > 0 {
        places_inside_are_known(places.source@, names, cwd);
    }
}

/// A directory is never copied onto itself or into itself, through links or
/// not: nothing is planned, and a message says so.
pub proof fn directories_stay_out_of_themselves(
    st: PlannerView,
    o: Observed,
    destination: Seq<u8>,
    dest_is_dir: bool,
    cwd: Seq<u8>,
    cfg: PlanConfig,
)
    requires
        o.meta is Ok,
        o.meta->Ok_0.kind == FileKind::Dir,
        real_nesting_of(
            o.spec.path@,
            dest_root(o.spec.path@, destination, dest_is_dir, cfg),
            o.places,
            cwd,
        ) != Nesting::Apart,
    ensures
        ({
            let next = source_planned(st, o, destination, dest_is_dir, cwd, cfg);
            &&& next.plan.entries == st.plan.entries
            &&& next.plan.errors.len() == st.plan.errors.len() + 1
            &&& next.seen == st.seen
        }),
{
}

// ---------------------------------------------------------------------------
// Plans side by side
// ---------------------------------------------------------------------------

/// What two plans do, one after the other.
pub open spec fn both(a: PlanView, b: PlanView) -> PlanView {
    PlanView {
        entries: a.entries + b.entries,
        total_bytes: a.total_bytes + b.total_bytes,
        file_count: a.file_count + b.file_count,
        skipped: a.skipped + b.skipped,
        excluded: a.excluded + b.excluded,
        errors: a.errors + b.errors,
    }
}

/// None of `es` is a hard link.
pub open spec fn without_hard_links(es: Seq<EntryView>) -> bool {
    forall|i: int| 0 <= i < es.len() ==> !(#[trigger] es[i] is HardLink)
}

/// `next` adds `more` to what was planned, and remembers no file.
spec fn adds(st: PlannerView, more: PlanView, next: PlannerView) -> bool {
    &&& next.plan == both(st.plan, more)
    &&& next.seen == st.seen
    &&& without_hard_links(more.entries)
}

proof fn lemma_adds_nothing(st: PlannerView)
    ensures
        adds(st, fresh().plan, st),
{
    assert(st.plan =~= both(st.plan, fresh().plan));
}

proof fn lemma_adds_both(
    st: PlannerView,
    a: PlanView,
    mid: PlannerView,
    b: PlanView,
    next: PlannerView,
)
    requires
        adds(st, a, mid),
        adds(mid, b, next),
    ensures
        adds(st, both(a, b), next),
{
    assert(both(both(st.plan, a), b) =~= both(st.plan, both(a, b)));
    assert forall|i: int| 0 <= i < (a.entries + b.entries).len() implies !(#[trigger] (a.entries
        + b.entries)[i] is HardLink) by {
        if i < a.entries.len() {
            assert(!(a.entries[i] is HardLink));
        } else {
            assert(!(b.entries[i - a.entries.len()] is HardLink));
        }
    }
}

proof fn lemma_event_adds(
    st: PlannerView,
    ev: TreeEvent,
    src_root: Seq<u8>,
    dst_root: Seq<u8>,
    root_dev: u64,
    cfg: PlanConfig,
)
    requires
        !cfg.preserve_links,
    ensures
        adds(
            st,
            event_planned(fresh(), ev, src_root, dst_root, root_dev, cfg).plan,
            event_planned(st, ev, src_root, dst_root, root_dev, cfg),
        ),
{
    let alone = event_planned(fresh(), ev, src_root, dst_root, root_dev, cfg).plan;
    let next = event_planned(st, ev, src_root, dst_root, root_dev, cfg);
    assert(next.plan =~= both(st.plan, alone));
}

proof fn lemma_walk_adds(
    st: PlannerView,
    evs: Seq<TreeEvent>,
    src_root: Seq<u8>,
    dst_root: Seq<u8>,
    root_dev: u64,
    cfg: PlanConfig,
)
    requires
        !cfg.preserve_links,
    ensures
        ({
            let alone = walked_through(fresh(), evs, src_root, dst_root, root_dev, cfg);
            let w = walked_through(st, evs, src_root, dst_root, root_dev, cfg);
            adds(st, alone.planner.plan, w.planner) && w.pruned == alone.pruned
        }),
    decreases evs.len(),
{
    if evs.len() == 0 {
        lemma_adds_nothing(st);
    } else {
        let init = evs.drop_last();
        let ev = evs.last();
        let w0 = walked_through(fresh(), init, src_root, dst_root, root_dev, cfg);
        let w = walked_through(st, init, src_root, dst_root, root_dev, cfg);
        lemma_walk_adds(st, init, src_root, dst_root, root_dev, cfg);
        if !is_hidden(w.pruned, ev) {
            lemma_event_adds(w0.planner, ev, src_root, dst_root, root_dev, cfg);
            lemma_event_adds(w.planner, ev, src_root, dst_root, root_dev, cfg);
            lemma_adds_both(
                st,
                w0.planner.plan,
                w.planner,
                event_planned(fresh(), ev, src_root, dst_root, root_dev, cfg).plan,
                event_planned(w.planner, ev, src_root, dst_root, root_dev, cfg),
            );
        }
    }
}

proof fn lemma_tree_adds(
    st: PlannerView,
    evs: Seq<TreeEvent>,
    src_root: Seq<u8>,
    dst_root: Seq<u8>,
    root_dev: u64,
    cfg: PlanConfig,
)
    requires
        !cfg.preserve_links,
    ensures
        adds(
            st,
            tree_planned(fresh(), evs, src_root, dst_root, root_dev, cfg).plan,
            tree_planned(st, evs, src_root, dst_root, root_dev, cfg),
        ),
{
    let e = EntryView::Dir { src: src_root, dst: dst_root };
    let top = fresh().with_entry(e);
    let first = st.with_entry(e);
    assert(first.plan =~= both(st.plan, top.plan));
    lemma_walk_adds(top, evs, src_root, dst_root, root_dev, cfg);
    lemma_walk_adds(first, evs, src_root, dst_root, root_dev, cfg);
    lemma_adds_both(
        st,
        top.plan,
        first,
        walked_through(fresh(), evs, src_root, dst_root, root_dev, cfg).planner.plan,
        tree_planned(st, evs, src_root, dst_root, root_dev, cfg),
    );
}

proof fn lemma_file_adds(
    st: PlannerView,
    src: Seq<u8>,
    dst: Seq<u8>,
    m: Meta,
    facts: DestFacts,
    cfg: PlanConfig,
)
    requires
        !cfg.preserve_links,
    ensures
        adds(
            st,
            file_planned(fresh(), src, dst, m, facts, cfg).plan,
            file_planned(st, src, dst, m, facts, cfg),
        ),
{
    let alone = file_planned(fresh(), src, dst, m, facts, cfg).plan;
    assert(file_planned(st, src, dst, m, facts, cfg).plan =~= both(st.plan, alone));
}

/// What is planned for a source alone.
#[verifier::opaque]
spec fn planned_alone(
    o: Observed,
    destination: Seq<u8>,
    dest_is_dir: bool,
    cwd: Seq<u8>,
    cfg: PlanConfig,
) -> PlanView {
    source_planned(fresh(), o, destination, dest_is_dir, cwd, cfg).plan
}

proof fn lemma_source_adds(
    st: PlannerView,
    o: Observed,
    destination: Seq<u8>,
    dest_is_dir: bool,
    cwd: Seq<u8>,
    cfg: PlanConfig,
)
    requires
        !cfg.preserve_links,
    ensures
        adds(
            st,
            planned_alone(o, destination, dest_is_dir, cwd, cfg),
            source_planned(st, o, destination, dest_is_dir, cwd, cfg),
        ),
{
    reveal(planned_alone);
    let src = o.spec.path@;
    let root = dest_root(src, destination, dest_is_dir, cfg);
    if o.meta is Ok && o.meta->Ok_0.kind == FileKind::Dir && cfg.recursive && real_nesting_of(
        src,
        root,
        o.places,
        cwd,
    ) == Nesting::Apart {
        lemma_tree_adds(st, o.tree@, src, root, o.meta->Ok_0.dev, cfg);
    } else if o.meta is Ok && o.meta->Ok_0.kind == FileKind::File {
        lemma_file_adds(st, src, root, o.meta->Ok_0, o.dest, cfg);
    } else {
        let alone = source_planned(fresh(), o, destination, dest_is_dir, cwd, cfg).plan;
        let next = source_planned(st, o, destination, dest_is_dir, cwd, cfg).plan;
        assert(next.entries =~= st.plan.entries + alone.entries);
        assert(next.errors =~= st.plan.errors + alone.errors);
        assert(next.skipped =~= st.plan.skipped + alone.skipped);
    }
}

proof fn lemma_sources_add(
    obs: Seq<Observed>,
    destination: Seq<u8>,
    dest_is_dir: bool,
    cwd: Seq<u8>,
    cfg: PlanConfig,
)
    requires
        !cfg.preserve_links,
    ensures
        obs.len() > 0 ==> sources_planned(obs, destination, dest_is_dir, cwd, cfg).plan == both(
            sources_planned(obs.drop_last(), destination, dest_is_dir, cwd, cfg).plan,
            planned_alone(obs.last(), destination, dest_is_dir, cwd, cfg),
        ),
        without_hard_links(
            sources_planned(obs, destination, dest_is_dir, cwd, cfg).plan.entries,
        ),
    decreases obs.len(),
{
    if obs.len() > 0 {
        let before = sources_planned(obs.drop_last(), destination, dest_is_dir, cwd, cfg);
        lemma_sources_add(obs.drop_last(), destination, dest_is_dir, cwd, cfg);
        lemma_source_adds(before, obs.last(), destination, dest_is_dir, cwd, cfg);
        let (a, b) = (
            before.plan.entries,
            planned_alone(obs.last(), destination, dest_is_dir, cwd, cfg).entries,
        );
        assert forall|i: int| 0 <= i < (a + b).len() implies !(#[trigger] (a + b)[i] is HardLink) by {
            if i < a.len() {
                assert(!(a[i] is HardLink));
            } else {
                assert(!(b[i - a.len()] is HardLink));
            }
        }
    }
}

proof fn lemma_both_in_turn(a: PlanView, b: PlanView, c: PlanView)
    ensures
        both(both(a, b), c) == both(a, both(b, c)),
        both(a, fresh().plan) == a,
{
    assert(both(both(a, b), c) =~= both(a, both(b, c)));
    assert(both(a, fresh().plan) =~= a);
}

/// Without `--preserve=links` no file becomes a hard link to another copy.
pub proof fn only_kept_links_become_hard_links(
    obs: Seq<Observed>,
    destination: Seq<u8>,
    dest_is_dir: bool,
    cwd: Seq<u8>,
    cfg: PlanConfig,
)
    requires
        !cfg.preserve_links,
    ensures
        without_hard_links(
            sources_planned(obs, destination, dest_is_dir, cwd, cfg).plan.entries,
        ),
{
    lemma_sources_add(obs, destination, dest_is_dir, cwd, cfg);
}

/// Without `--preserve=links` sources have nothing to do with one another: the
/// plan for two lists of sources, one behind the other, holds the entries, the
/// messages, the paths left aside and the totals of both.
pub proof fn plans_stand_side_by_side(
    first: Seq<Observed>,
    second: Seq<Observed>,
    destination: Seq<u8>,
    dest_is_dir: bool,
    cwd: Seq<u8>,
    cfg: PlanConfig,
)
    requires
        !cfg.preserve_links,
    ensures
        sources_planned(first + second, destination, dest_is_dir, cwd, cfg).plan == both(
            sources_planned(first, destination, dest_is_dir, cwd, cfg).plan,
            sources_planned(second, destination, dest_is_dir, cwd, cfg).plan,
        ),
    decreases second.len(),
{
    let a = sources_planned(first, destination, dest_is_dir, cwd, cfg).plan;
    if second.len() == 0 {
        assert(first + second =~= first);
        lemma_both_in_turn(a, a, a);
    } else {
        let init = second.drop_last();
        assert((first + second).drop_last() =~= first + init);
        assert((first + second).last() == second.last());
        plans_stand_side_by_side(first, init, destination, dest_is_dir, cwd, cfg);
        lemma_sources_add(first + second, destination, dest_is_dir, cwd, cfg);
        lemma_sources_add(second, destination, dest_is_dir, cwd, cfg);
        lemma_both_in_turn(
            a,
            sources_planned(init, destination, dest_is_dir, cwd, cfg).plan,
            planned_alone(second.last(), destination, dest_is_dir, cwd, cfg),
        );
    }
}

} // verus!
