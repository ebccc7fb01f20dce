//! Unix paths, held as the bytes that the system takes.
//!
//! A path is read as its parts: the stretches between slashes, without the
//! empty ones and without `.`, except for a `.` that opens a relative path.

use vstd::prelude::*;

use crate::bytes::{append_bytes, copy_bytes, copy_range, same_bytes};

verus! {

/// The byte `/`.
pub const SLASH: u8 = 47;

/// The byte `.`.
pub const DOT: u8 = 46;

/// A path, as bytes.
#[derive(Debug)]
pub struct RawPath {
    pub bytes: Vec<u8>,
}

impl View for RawPath {
    type V = Seq<u8>;

    open spec fn view(&self) -> Seq<u8> {
        self.bytes@
    }
}

impl Clone for RawPath {
    fn clone(&self) -> (r: Self)
        ensures
            r@ == self@,
    {
        RawPath { bytes: copy_bytes(self.bytes.as_slice()) }
    }
}

// ---------------------------------------------------------------------------
// What a path is
// ---------------------------------------------------------------------------

/// `p` starts at the root.
pub open spec fn is_abs(p: Seq<u8>) -> bool {
    p.len() > 0 && p[0] == SLASH
}

/// Where the stretch without a slash that ends at `i` starts.
pub open spec fn seg_start(p: Seq<u8>, i: int) -> int
    decreases i,
{
    if i <= 0 {
        0
    } else if p[i - 1] == SLASH {
        i
    } else {
        seg_start(p, i - 1)
    }
}

/// The stretch from `s` to `e` is a part of the path: it is not empty, and it
/// is not a `.`, except at the very start.
pub open spec fn kept(p: Seq<u8>, s: int, e: int) -> bool {
    s < e && !(e == s + 1 && p[s] == DOT && s != 0)
}

/// The parts that end with a slash before `i`, as `(start, end)`.
pub open spec fn spans_to(p: Seq<u8>, i: int) -> Seq<(int, int)>
    decreases i,
{
    if i <= 0 {
        Seq::empty()
    } else if p[i - 1] == SLASH && kept(p, seg_start(p, i - 1), i - 1) {
        spans_to(p, i - 1).push((seg_start(p, i - 1), i - 1))
    } else {
        spans_to(p, i - 1)
    }
}

/// The parts of `p`, as `(start, end)`.
pub open spec fn spans(p: Seq<u8>) -> Seq<(int, int)> {
    let n = p.len() as int;
    let s = seg_start(p, n);
    if kept(p, s, n) {
        spans_to(p, n).push((s, n))
    } else {
        spans_to(p, n)
    }
}

/// The parts of `p`, as byte strings.
pub open spec fn parts(p: Seq<u8>) -> Seq<Seq<u8>> {
    spans(p).map_values(|s: (int, int)| p.subrange(s.0, s.1))
}

/// The part `.`.
pub open spec fn dot() -> Seq<u8> {
    seq![DOT]
}

/// The part `..`.
pub open spec fn dotdot() -> Seq<u8> {
    seq![DOT, DOT]
}

/// The last part of `p`, unless it is `.` or `..`.
pub open spec fn file_name_of(p: Seq<u8>) -> Option<Seq<u8>> {
    let ps = parts(p);
    if ps.len() > 0 && ps.last() != dot() && ps.last() != dotdot() {
        Some(ps.last())
    } else {
        None
    }
}

/// `p` up to the end of the part before its last one.
pub open spec fn parent_of(p: Seq<u8>) -> Option<Seq<u8>> {
    let sp = spans(p);
    if sp.len() == 0 {
        None
    } else if sp.len() >= 2 {
        Some(p.take(sp[sp.len() - 2].1))
    } else if is_abs(p) {
        Some(p.take(1))
    } else {
        Some(Seq::empty())
    }
}

/// `p` as seen from `base`.
pub open spec fn join_of(base: Seq<u8>, p: Seq<u8>) -> Seq<u8> {
    if is_abs(p) {
        p
    } else if base.len() > 0 && base.last() != SLASH {
        base.push(SLASH) + p
    } else {
        base + p
    }
}

/// `p` without the slashes at its end; the root keeps its own.
pub open spec fn without_slashes(p: Seq<u8>) -> Seq<u8>
    decreases p.len(),
{
    if p.len() > 1 && p.last() == SLASH {
        without_slashes(p.drop_last())
    } else {
        p
    }
}

/// `p` with its file name, if it has one, replaced by `name`.
pub open spec fn with_file_name_of(p: Seq<u8>, name: Seq<u8>) -> Seq<u8> {
    if file_name_of(p) is Some {
        join_of(parent_of(p).unwrap(), name)
    } else {
        join_of(p, name)
    }
}

/// `names` with a slash between each two.
pub open spec fn joined(names: Seq<Seq<u8>>) -> Seq<u8>
    decreases names.len(),
{
    if names.len() == 0 {
        Seq::empty()
    } else if names.len() == 1 {
        names[0]
    } else {
        joined(names.drop_last()).push(SLASH) + names.last()
    }
}

/// The path that starts at the root, or not, and goes through `names`.
pub open spec fn rendered(abs: bool, names: Seq<Seq<u8>>) -> Seq<u8> {
    if abs {
        seq![SLASH] + joined(names)
    } else {
        joined(names)
    }
}

/// `ps` walked through: `..` takes back the name before it, `.` does nothing.
pub open spec fn walked(ps: Seq<Seq<u8>>) -> Seq<Seq<u8>>
    decreases ps.len(),
{
    if ps.len() == 0 {
        Seq::empty()
    } else {
        let before = walked(ps.drop_last());
        if ps.last() == dotdot() {
            if before.len() > 0 {
                before.drop_last()
            } else {
                before
            }
        } else if ps.last() == dot() {
            before
        } else {
            before.push(ps.last())
        }
    }
}

/// `p` with `.` and `..` resolved without looking at any file.
pub open spec fn normalized(p: Seq<u8>) -> Seq<u8> {
    rendered(is_abs(p), walked(parts(p)))
}

/// `p` below the root, without a leading `.`.
pub open spec fn rootless(p: Seq<u8>) -> Seq<u8> {
    joined(parts(p).filter(|x: Seq<u8>| x != dot()))
}

/// `p` as an absolute path, seen from the directory `cwd`.
pub open spec fn absolute_of(p: Seq<u8>, cwd: Seq<u8>) -> Seq<u8> {
    if is_abs(p) {
        p
    } else {
        join_of(cwd, p)
    }
}

/// `p` without what follows its last part.
pub open spec fn trimmed_end(p: Seq<u8>) -> Seq<u8> {
    if spans(p).len() > 0 {
        p.take(spans(p).last().1)
    } else if is_abs(p) {
        p.take(1)
    } else {
        Seq::empty()
    }
}

/// What is left of `p` below `base`, when `p` goes through `base`.
pub open spec fn below(p: Seq<u8>, base: Seq<u8>) -> Option<Seq<u8>> {
    let ps = parts(p);
    let bs = parts(base);
    if !is_abs(base) && bs.len() == 0 {
        Some(trimmed_end(p))
    } else if is_abs(p) == is_abs(base) && bs.len() <= ps.len() && ps.take(bs.len() as int) == bs {
        if bs.len() == ps.len() {
            Some(Seq::empty())
        } else {
            Some(p.subrange(spans(p)[bs.len() as int].0, spans(p).last().1))
        }
    } else {
        None
    }
}

/// The path `sub` goes through the path `top`, both given as their start and
/// their names.
pub open spec fn goes_through(top_abs: bool, top: Seq<Seq<u8>>, sub_abs: bool, sub: Seq<Seq<u8>>) -> bool {
    if !top_abs && top.len() == 0 {
        true
    } else {
        top_abs == sub_abs && top.len() <= sub.len() && sub.take(top.len() as int) == top
    }
}

// ---------------------------------------------------------------------------
// Facts about parts
// ---------------------------------------------------------------------------

/// Every part lies inside the path, holds no slash and is not empty, and the
/// parts come one after the other.
pub open spec fn spans_ok(p: Seq<u8>, sp: Seq<(int, int)>, end: int) -> bool {
    &&& forall|k: int| #![trigger sp[k]] 0 <= k < sp.len() ==> {
        &&& 0 <= sp[k].0 < sp[k].1 <= end
        &&& kept(p, sp[k].0, sp[k].1)
        &&& forall|j: int| sp[k].0 <= j < sp[k].1 ==> p[j] != SLASH
    }
    &&& forall|k: int, l: int| 0 <= k < l < sp.len() ==> sp[k].1 < sp[l].0
}

proof fn lemma_seg_start(p: Seq<u8>, i: int)
    requires
        0 <= i <= p.len(),
    ensures
        0 <= seg_start(p, i) <= i,
        forall|j: int| seg_start(p, i) <= j < i ==> p[j] != SLASH,
        seg_start(p, i) > 0 ==> p[seg_start(p, i) - 1] == SLASH,
    decreases i,
{
    if i > 0 && p[i - 1] != SLASH {
        lemma_seg_start(p, i - 1);
    }
}

proof fn lemma_spans_to_ok(p: Seq<u8>, i: int)
    requires
        0 <= i <= p.len(),
    ensures
        spans_ok(p, spans_to(p, i), i),
        spans_to(p, i).len() > 0 ==> spans_to(p, i).last().1 < seg_start(p, i),
    decreases i,
{
    if i > 0 {
        lemma_spans_to_ok(p, i - 1);
        lemma_seg_start(p, i - 1);
        lemma_seg_start(p, i);
    }
}

/// The parts of a path lie inside it, in order, apart from each other.
pub proof fn lemma_spans_ok(p: Seq<u8>)
    ensures
        spans_ok(p, spans(p), p.len() as int),
{
    lemma_spans_to_ok(p, p.len() as int);
    lemma_seg_start(p, p.len() as int);
}

/// A byte string that can stand as a name: not empty, no slash, neither `.`
/// nor `..`.
pub open spec fn is_name(x: Seq<u8>) -> bool {
    &&& x.len() > 0
    &&& forall|j: int| 0 <= j < x.len() ==> x[j] != SLASH
    &&& x != dot()
    &&& x != dotdot()
}

/// All of `names` can stand as names.
pub open spec fn all_names(names: Seq<Seq<u8>>) -> bool {
    forall|k: int| 0 <= k < names.len() ==> is_name(#[trigger] names[k])
}

proof fn lemma_spans_to_local(p: Seq<u8>, q: Seq<u8>, i: int)
    requires
        0 <= i <= p.len(),
        i <= q.len(),
        p.take(i) == q.take(i),
    ensures
        seg_start(p, i) == seg_start(q, i),
        spans_to(p, i) == spans_to(q, i),
    decreases i,
{
    if i > 0 {
        assert(p.take(i - 1) =~= p.take(i).take(i - 1));
        assert(q.take(i - 1) =~= q.take(i).take(i - 1));
        assert(p[i - 1] == p.take(i)[i - 1]);
        assert(q[i - 1] == q.take(i)[i - 1]);
        lemma_spans_to_local(p, q, i - 1);
        lemma_seg_start(p, i - 1);
        let s = seg_start(p, i - 1);
        if s < i - 1 {
            assert(p[s] == p.take(i)[s]);
            assert(q[s] == q.take(i)[s]);
        }
    }
}

/// A stretch without slashes runs back to where it starts.
proof fn lemma_seg_start_run(p: Seq<u8>, s: int, i: int)
    requires
        0 <= s <= i <= p.len(),
        s == 0 || p[s - 1] == SLASH,
        forall|j: int| s <= j < i ==> p[j] != SLASH,
    ensures
        seg_start(p, i) == s,
    decreases i,
{
    if i > s {
        lemma_seg_start_run(p, s, i - 1);
    }
}

proof fn lemma_spans_to_run(p: Seq<u8>, s: int, i: int)
    requires
        0 <= s <= i <= p.len(),
        forall|j: int| s <= j < i ==> p[j] != SLASH,
    ensures
        spans_to(p, i) == spans_to(p, s),
    decreases i,
{
    if i > s {
        lemma_spans_to_run(p, s, i - 1);
    }
}

/// One more name behind a slash is one more part.
pub proof fn lemma_push_name(p: Seq<u8>, x: Seq<u8>)
    requires
        x.len() > 0,
        forall|j: int| 0 <= j < x.len() ==> x[j] != SLASH,
        x != dot(),
    ensures
        spans(p.push(SLASH) + x) == spans(p).push(((p.len() + 1) as int, (p.len() + 1 + x.len()) as int)),
        parts(p.push(SLASH) + x) == parts(p).push(x),
        is_abs(p) ==> is_abs(p.push(SLASH) + x),
        p.len() > 0 ==> is_abs(p.push(SLASH) + x) == is_abs(p),
{
    let q = p.push(SLASH) + x;
    let n = p.len() as int;
    assert(q.take(n) =~= p);
    assert(p.take(n) =~= p);
    lemma_spans_to_local(p, q, n);
    assert(q[n] == SLASH);
    assert forall|j: int| n + 1 <= j < q.len() implies q[j] != SLASH by {
        assert(q[j] == x[j - n - 1]);
    }
    lemma_seg_start_run(q, n + 1, q.len() as int);
    lemma_spans_to_run(q, n + 1, q.len() as int);
    lemma_seg_start(p, n);
    let s = seg_start(p, n);
    if s < n {
        assert(q[s] == p[s]);
    }
    assert(spans_to(q, n + 1) == spans(p));
    assert(kept(q, n + 1, q.len() as int)) by {
        if x.len() == 1 {
            assert(q[n + 1] == x[0]);
            if x[0] == DOT {
                assert(x =~= dot());
            }
        }
    }
    lemma_spans_ok(p);
    assert(q.subrange(n + 1, n + 1 + x.len()) =~= x);
    assert(parts(q) =~= parts(p).push(x)) by {
        assert forall|k: int| 0 <= k < parts(q).len() implies parts(q)[k] == parts(p).push(x)[k] by {
            if k < spans(p).len() {
                assert(spans(q)[k] == spans(p)[k]);
                assert(q.subrange(spans(q)[k].0, spans(q)[k].1) =~= p.subrange(
                    spans(p)[k].0,
                    spans(p)[k].1,
                ));
            }
        }
    }
    if p.len() > 0 {
        assert(q[0] == p[0]);
    }
}

/// A single name is a path of one part.
proof fn lemma_single(x: Seq<u8>)
    requires
        is_name(x),
    ensures
        parts(x) == seq![x],
        !is_abs(x),
{
    lemma_seg_start_run(x, 0, x.len() as int);
    lemma_spans_to_run(x, 0, x.len() as int);
    assert(x.subrange(0, x.len() as int) =~= x);
    assert(parts(x) =~= seq![x]);
}

/// A slash at the end adds no part.
pub proof fn lemma_slash_at_end(p: Seq<u8>)
    ensures
        parts(p.push(SLASH)) == parts(p),
{
    let q = p.push(SLASH);
    let n = p.len() as int;
    assert(q.take(n) =~= p.take(n));
    lemma_spans_to_local(p, q, n);
    lemma_spans_ok(p);
    lemma_seg_start(p, n);
    let s = seg_start(p, n);
    if s < n {
        assert(q[s] == p[s]);
    }
    assert(spans(q) =~= spans(p));
    assert(parts(q) =~= parts(p)) by {
        assert forall|k: int| 0 <= k < parts(q).len() implies parts(q)[k] == parts(p)[k] by {
            assert(spans(p)[k].1 <= n);
            assert(q.subrange(spans(p)[k].0, spans(p)[k].1) =~= p.subrange(
                spans(p)[k].0,
                spans(p)[k].1,
            ));
        }
    }
}

/// One more name is one more part.
pub proof fn lemma_join_name(p: Seq<u8>, x: Seq<u8>)
    requires
        is_name(x),
    ensures
        parts(join_of(p, x)) == parts(p).push(x),
        is_abs(join_of(p, x)) == is_abs(p),
        join_of(p, x).len() > 0,
{
    lemma_single(x);
    if p.len() == 0 {
        assert(join_of(p, x) =~= x);
        assert(parts(p) =~= Seq::empty());
        assert(parts(p).push(x) =~= seq![x]);
    } else if p.last() == SLASH {
        let q = p.drop_last();
        assert(p =~= q.push(SLASH));
        lemma_slash_at_end(q);
        lemma_push_name(q, x);
        assert(join_of(p, x)[0] == p[0]);
    } else {
        lemma_push_name(p, x);
    }
}

/// The way up gets shorter with each step.
pub proof fn lemma_parent_is_shorter(p: Seq<u8>)
    ensures
        parent_of(p) matches Some(q) ==> q.len() < p.len(),
{
    lemma_spans_ok(p);
    let sp = spans(p);
    if sp.len() >= 2 {
        assert(sp[sp.len() - 2].1 < sp[sp.len() - 1].0);
    }
    if sp.len() == 1 && is_abs(p) {
        assert(p[sp[0].0] != SLASH);
    }
}

/// What is cut off behind a part is one part more.
pub(crate) proof fn lemma_take_parts(p: Seq<u8>, k: int)
    requires
        0 <= k < spans(p).len(),
    ensures
        parts(p.take(spans(p)[k].1)) == parts(p).take(k + 1),
        is_abs(p.take(spans(p)[k].1)) == is_abs(p),
        spans(p.take(spans(p)[k].1)) == spans(p).take(k + 1),
{
    let sp = spans(p);
    let n = p.len() as int;
    let e = sp[k].1;
    let q = p.take(e);
    lemma_spans_ok(p);
    lemma_span_end(p, k);
    assert(p.take(e).take(e) =~= p.take(e));
    lemma_spans_to_local(p, q, e);
    assert(spans(q) =~= sp.take(k + 1));
    assert(parts(q) =~= parts(p).take(k + 1)) by {
        assert forall|j: int| 0 <= j < k + 1 implies parts(q)[j] == parts(p)[j] by {
            assert(spans(q)[j] == sp[j]);
            if j < k {
                assert(sp[j].1 < sp[k].0);
            }
            assert(q.subrange(sp[j].0, sp[j].1) =~= p.subrange(sp[j].0, sp[j].1));
        }
    }
}

/// Up to the end of a part there are this part and those before it.
proof fn lemma_span_end(p: Seq<u8>, k: int)
    requires
        0 <= k < spans(p).len(),
    ensures
        spans_to(p, spans(p)[k].1) == spans(p).take(k),
        seg_start(p, spans(p)[k].1) == spans(p)[k].0,
{
    let n = p.len() as int;
    lemma_spans_ok(p);
    lemma_spans_to_ok(p, n);
    if k == spans_to(p, n).len() {
        assert(spans(p).take(k) =~= spans_to(p, n));
    } else {
        lemma_span_to_end(p, n, k);
        assert(spans(p)[k] == spans_to(p, n)[k]);
        assert(spans(p).take(k) =~= spans_to(p, n).take(k));
    }
}

proof fn lemma_span_to_end(p: Seq<u8>, i: int, k: int)
    requires
        0 <= i <= p.len(),
        0 <= k < spans_to(p, i).len(),
    ensures
        spans_to(p, spans_to(p, i)[k].1) == spans_to(p, i).take(k),
        seg_start(p, spans_to(p, i)[k].1) == spans_to(p, i)[k].0,
    decreases i,
{
    if i > 0 {
        let before = spans_to(p, i - 1);
        if k < before.len() {
            lemma_span_to_end(p, i - 1, k);
            assert(spans_to(p, i)[k] == before[k]);
            assert(spans_to(p, i).take(k) =~= before.take(k));
        } else {
            assert(spans_to(p, i).take(k) =~= before);
        }
    }
}

/// A path whose file name is replaced goes through the same directories.
pub proof fn lemma_with_file_name(p: Seq<u8>, name: Seq<u8>)
    requires
        file_name_of(p) is Some,
        is_name(name),
    ensures
        parts(with_file_name_of(p, name)) == parts(p).drop_last().push(name),
        is_abs(with_file_name_of(p, name)) == is_abs(p),
{
    let sp = spans(p);
    let n = sp.len() as int;
    let q = parent_of(p).unwrap();
    let r = with_file_name_of(p, name);
    lemma_spans_ok(p);
    lemma_single(name);
    if n >= 2 {
        lemma_take_parts(p, n - 2);
        let e = sp[n - 2].1;
        assert(q.last() == p[e - 1]);
        assert(q.last() != SLASH);
        lemma_push_name(q, name);
        assert(parts(p).take(n - 1) =~= parts(p).drop_last());
    } else {
        assert(parts(p).drop_last() =~= Seq::empty());
        if is_abs(p) {
            assert(q =~= seq![SLASH]);
            assert(r =~= Seq::<u8>::empty().push(SLASH) + name);
            lemma_push_name(Seq::empty(), name);
            lemma_no_parts();
            assert(parts(r) =~= seq![name]);
            assert(r[0] == SLASH);
        } else {
            assert(r =~= name);
            assert(parts(r) =~= parts(p).drop_last().push(name));
        }
    }
}

pub(crate) proof fn lemma_no_parts()
    ensures
        parts(Seq::<u8>::empty()) == Seq::<Seq<u8>>::empty(),
{
    assert(parts(Seq::<u8>::empty()) =~= Seq::empty());
}

/// The names of a rendered path are the names it was rendered from.
pub proof fn lemma_rendered_parts(abs: bool, names: Seq<Seq<u8>>)
    requires
        all_names(names),
    ensures
        parts(rendered(abs, names)) == names,
        is_abs(rendered(abs, names)) == abs,
    decreases names.len(),
{
    if names.len() == 0 {
        if abs {
            let r = rendered(abs, names);
            assert(r =~= seq![SLASH]);
            assert(seg_start(r, 0) == 0);
            assert(spans_to(r, 0) =~= Seq::empty());
            assert(spans_to(r, 1) =~= Seq::empty());
            assert(seg_start(r, 1) == 1);
            assert(parts(r) =~= names);
        } else {
            assert(parts(rendered(abs, names)) =~= names);
        }
    } else if names.len() == 1 {
        let x = names[0];
        assert(is_name(x));
        assert(joined(names) == x);
        if abs {
            let e = Seq::<u8>::empty();
            assert(rendered(abs, names) =~= e.push(SLASH) + x);
            lemma_push_name(e, x);
            assert(parts(e) =~= Seq::empty());
            assert(parts(e).push(x) =~= names);
        } else {
            lemma_single(x);
            assert(names =~= seq![x]);
        }
    } else {
        let init = names.drop_last();
        let x = names.last();
        assert(is_name(names[names.len() - 1]));
        assert(all_names(init)) by {
            assert forall|k: int| 0 <= k < init.len() implies is_name(#[trigger] init[k]) by {
                assert(is_name(names[k]));
            }
        }
        lemma_rendered_parts(abs, init);
        let p = rendered(abs, init);
        assert(rendered(abs, names) =~= p.push(SLASH) + x);
        lemma_push_name(p, x);
        assert(init.push(x) =~= names);
        if p.len() == 0 {
            assert(parts(p) =~= Seq::empty());
        }
    }
}

/// What is walked through holds names only.
pub proof fn lemma_walked_names(ps: Seq<Seq<u8>>)
    requires
        forall|k: int| #![trigger ps[k]] 0 <= k < ps.len() ==> ps[k].len() > 0 && forall|j: int|
            0 <= j < ps[k].len() ==> ps[k][j] != SLASH,
    ensures
        all_names(walked(ps)),
    decreases ps.len(),
{
    if ps.len() > 0 {
        let init = ps.drop_last();
        assert forall|k: int| #![trigger init[k]] 0 <= k < init.len() implies init[k].len() > 0
            && forall|j: int| 0 <= j < init[k].len() ==> init[k][j] != SLASH by {
            assert(init[k] == ps[k]);
        }
        lemma_walked_names(init);
        assert(ps[ps.len() - 1].len() > 0);
    }
}

/// Walking through names alone changes nothing.
proof fn lemma_walked_id(names: Seq<Seq<u8>>)
    requires
        all_names(names),
    ensures
        walked(names) == names,
    decreases names.len(),
{
    if names.len() > 0 {
        let init = names.drop_last();
        assert forall|k: int| 0 <= k < init.len() implies is_name(#[trigger] init[k]) by {
            assert(is_name(names[k]));
        }
        lemma_walked_id(init);
        assert(is_name(names[names.len() - 1]));
        assert(init.push(names.last()) =~= names);
    } else {
        assert(walked(names) =~= names);
    }
}

/// Every part of a path is a byte string without a slash, and not empty.
pub proof fn lemma_parts_plain(p: Seq<u8>)
    ensures
        forall|k: int| #![trigger parts(p)[k]] 0 <= k < parts(p).len() ==> parts(p)[k].len() > 0
            && forall|j: int| 0 <= j < parts(p)[k].len() ==> parts(p)[k][j] != SLASH,
{
    lemma_spans_ok(p);
    assert forall|k: int| #![trigger parts(p)[k]] 0 <= k < parts(p).len() implies parts(p)[k].len() > 0
        && forall|j: int| 0 <= j < parts(p)[k].len() ==> parts(p)[k][j] != SLASH by {
        let s = spans(p)[k];
        assert(parts(p)[k] == p.subrange(s.0, s.1));
        assert forall|j: int| 0 <= j < parts(p)[k].len() implies parts(p)[k][j] != SLASH by {
            assert(p[s.0 + j] != SLASH);
        }
    }
}

// ---------------------------------------------------------------------------
// Laws
// ---------------------------------------------------------------------------

/// A normalized path holds neither `.` nor `..`, starts where the path started,
/// and its parts are what walking through the path leaves.
pub proof fn normalized_is_plain(p: Seq<u8>)
    ensures
        parts(normalized(p)) == walked(parts(p)),
        is_abs(normalized(p)) == is_abs(p),
        all_names(parts(normalized(p))),
{
    lemma_parts_plain(p);
    lemma_walked_names(parts(p));
    lemma_rendered_parts(is_abs(p), walked(parts(p)));
}

/// Normalizing twice is normalizing once.
pub proof fn normalized_is_stable(p: Seq<u8>)
    ensures
        normalized(normalized(p)) == normalized(p),
{
    normalized_is_plain(p);
    lemma_walked_id(walked(parts(p)));
}

/// Two paths have the same normal form exactly when they start alike and walk
/// through the same names.
pub proof fn normalized_is_injective(p: Seq<u8>, q: Seq<u8>)
    ensures
        (normalized(p) == normalized(q)) == (is_abs(p) == is_abs(q) && walked(parts(p)) == walked(
            parts(q),
        )),
{
    normalized_is_plain(p);
    normalized_is_plain(q);
}

// ---------------------------------------------------------------------------
// The operations
// ---------------------------------------------------------------------------

/// The byte strings of `v`.
pub open spec fn byte_strings(v: Seq<Vec<u8>>) -> Seq<Seq<u8>> {
    v.map_values(|x: Vec<u8>| x@)
}

/// A path with `.` and `..` resolved, as the names it goes through.
pub struct NormalPath {
    pub absolute: bool,
    pub names: Vec<Vec<u8>>,
}

impl NormalPath {
    /// The names, as byte strings.
    pub open spec fn names_view(&self) -> Seq<Seq<u8>> {
        byte_strings(self.names@)
    }

    /// Whether this path goes through the path `top`.
    pub fn is_under(&self, top: &NormalPath) -> (r: bool)
        ensures
            r == goes_through(top.absolute, top.names_view(), self.absolute, self.names_view()),
    {
        if !top.absolute && top.names.len() == 0 {
            return true;
        }
        if top.absolute != self.absolute || top.names.len() > self.names.len() {
            return false;
        }
        let ghost mine = self.names_view();
        let ghost tops = top.names_view();
        let mut k: usize = 0;
        while k < top.names.len()
            invariant
                k <= top.names@.len() <= self.names@.len(),
                mine == self.names_view(),
                tops == top.names_view(),
                forall|j: int| 0 <= j < k ==> mine[j] == tops[j],
            decreases top.names@.len() - k,
        {
            assert(mine[k as int] == self.names@[k as int]@);
            assert(tops[k as int] == top.names@[k as int]@);
            if !same_bytes(self.names[k].as_slice(), top.names[k].as_slice()) {
                assert(mine.take(tops.len() as int)[k as int] != tops[k as int]);
                return false;
            }
            k = k + 1;
        }
        assert(mine.take(tops.len() as int) =~= tops);
        true
    }
}

impl RawPath {
    /// The empty path.
    pub fn empty() -> (r: RawPath)
        ensures
            r@ == Seq::<u8>::empty(),
    {
        RawPath { bytes: Vec::new() }
    }

    /// The path with the bytes of `s`.
    pub fn from_bytes(s: &[u8]) -> (r: RawPath)
        ensures
            r@ == s@,
    {
        RawPath { bytes: copy_bytes(s) }
    }

    /// Whether the two paths hold the same bytes.
    pub fn same(&self, other: &RawPath) -> (r: bool)
        ensures
            r == (self@ == other@),
    {
        same_bytes(self.bytes.as_slice(), other.bytes.as_slice())
    }

    /// Whether the path starts at the root.
    pub fn is_absolute(&self) -> (r: bool)
        ensures
            r == is_abs(self@),
    {
        self.bytes.len() > 0 && self.bytes[0] == SLASH
    }

    /// Whether the path ends with a slash.
    pub fn has_trailing_slash(&self) -> (r: bool)
        ensures
            r == (self@.len() > 0 && self@.last() == SLASH),
    {
        let n: usize = self.bytes.len();
        n > 0 && self.bytes[n - 1] == SLASH
    }

    /// The path without the slashes at its end.
    pub fn without_trailing_slashes(&self) -> (r: RawPath)
        ensures
            r@ == without_slashes(self@),
    {
        let ghost p = self@;
        let mut n: usize = self.bytes.len();
        assert(p.take(n as int) =~= p);
        while n > 1 && self.bytes[n - 1] == SLASH
            invariant
                n <= p.len(),
                p == self.bytes@,
                without_slashes(p.take(n as int)) == without_slashes(p),
            decreases n,
        {
            assert(p.take(n as int).drop_last() =~= p.take(n - 1));
            n = n - 1;
        }
        let r: RawPath = RawPath { bytes: copy_range(self.bytes.as_slice(), 0, n) };
        assert(r@ =~= p.take(n as int));
        r
    }

    fn span_list(&self) -> (r: Vec<(usize, usize)>)
        ensures
            r@.len() == spans(self@).len(),
            forall|k: int|
                #![trigger r@[k]]
                0 <= k < r@.len() ==> r@[k].0 == spans(self@)[k].0 && r@[k].1 == spans(self@)[k].1,
    {
        let ghost p = self@;
        let n: usize = self.bytes.len();
        let mut out: Vec<(usize, usize)> = Vec::new();
        let mut start: usize = 0;
        let mut i: usize = 0;
        while i < n
            invariant
                i <= n == p.len(),
                p == self.bytes@,
                start <= i,
                start == seg_start(p, i as int),
                out@.len() == spans_to(p, i as int).len(),
                forall|k: int|
                    #![trigger out@[k]]
                    0 <= k < out@.len() ==> out@[k].0 == spans_to(p, i as int)[k].0 && out@[k].1
                        == spans_to(p, i as int)[k].1,
            decreases n - i,
        {
            let ghost before = spans_to(p, i as int);
            if self.bytes[i] == SLASH {
                if start < i && !(i == start + 1 && self.bytes[start] == DOT && start != 0) {
                    out.push((start, i));
                    assert(spans_to(p, i + 1) == before.push((start as int, i as int)));
                } else {
                    assert(spans_to(p, i + 1) == before);
                }
                start = i + 1;
            } else {
                assert(spans_to(p, i + 1) == before);
            }
            i = i + 1;
        }
        if start < n && !(n == start + 1 && self.bytes[start] == DOT && start != 0) {
            out.push((start, n));
        }
        out
    }

    /// The parts of the path.
    pub fn part_list(&self) -> (r: Vec<Vec<u8>>)
        ensures
            byte_strings(r@) == parts(self@),
    {
        let sp: Vec<(usize, usize)> = self.span_list();
        let ghost p = self@;
        proof {
            lemma_spans_ok(p);
        }
        let mut out: Vec<Vec<u8>> = Vec::new();
        let mut k: usize = 0;
        while k < sp.len()
            invariant
                p == self.bytes@,
                spans_ok(p, spans(p), p.len() as int),
                k <= sp@.len() == spans(p).len(),
                forall|j: int|
                    #![trigger sp@[j]]
                    0 <= j < sp@.len() ==> sp@[j].0 == spans(p)[j].0 && sp@[j].1 == spans(p)[j].1,
                out@.len() == k,
                forall|j: int| 0 <= j < k ==> #[trigger] out@[j]@ == parts(p)[j],
            decreases sp@.len() - k,
        {
            let (from, to): (usize, usize) = sp[k];
            assert(0 <= spans(p)[k as int].0 < spans(p)[k as int].1 <= p.len());
            let part: Vec<u8> = copy_range(self.bytes.as_slice(), from, to);
            assert(part@ == parts(p)[k as int]);
            out.push(part);
            k = k + 1;
        }
        assert(byte_strings(out@) =~= parts(p));
        out
    }

    /// The last part, unless it is `.` or `..`.
    pub fn file_name(&self) -> (r: Option<Vec<u8>>)
        ensures
            match r {
                Some(n) => file_name_of(self@) == Some(n@),
                None => file_name_of(self@) is None,
            },
    {
        let ps: Vec<Vec<u8>> = self.part_list();
        let ghost pv = parts(self@);
        let n: usize = ps.len();
        if n == 0 {
            assert(byte_strings(ps@).len() == 0);
            return None;
        }
        assert(byte_strings(ps@)[n - 1] == ps@[n - 1]@);
        let last: Vec<u8> = copy_bytes(ps[n - 1].as_slice());
        assert(last@ == pv.last());
        if is_dot(last.as_slice()) || is_dotdot(last.as_slice()) {
            return None;
        }
        Some(last)
    }

    /// The path up to the end of the part before the last one.
    pub fn parent(&self) -> (r: Option<RawPath>)
        ensures
            match r {
                Some(q) => parent_of(self@) == Some(q@),
                None => parent_of(self@) is None,
            },
    {
        let sp: Vec<(usize, usize)> = self.span_list();
        proof {
            lemma_spans_ok(self@);
        }
        let n: usize = sp.len();
        if n == 0 {
            return None;
        }
        let end: usize = if n >= 2 {
            assert(sp@[n - 2].1 == spans(self@)[n - 2].1);
            sp[n - 2].1
        } else if self.is_absolute() {
            1
        } else {
            0
        };
        let q: RawPath = RawPath { bytes: copy_range(self.bytes.as_slice(), 0, end) };
        assert(q@ =~= parent_of(self@).unwrap());
        Some(q)
    }

    /// The path `p` as seen from this one.
    pub fn join(&self, p: &RawPath) -> (r: RawPath)
        ensures
            r@ == join_of(self@, p@),
    {
        if p.is_absolute() {
            return p.clone();
        }
        let mut out: Vec<u8> = copy_bytes(self.bytes.as_slice());
        if out.len() > 0 && !self.has_trailing_slash() {
            out.push(SLASH);
        }
        append_bytes(&mut out, p.bytes.as_slice());
        RawPath { bytes: out }
    }

    /// The path with its file name replaced by `name`.
    pub fn with_file_name(&self, name: &RawPath) -> (r: RawPath)
        ensures
            r@ == with_file_name_of(self@, name@),
    {
        match self.file_name() {
            Some(_) => match self.parent() {
                Some(q) => q.join(name),
                None => self.join(name),
            },
            None => self.join(name),
        }
    }

    /// The path below the directory `base`, when it goes through it.
    pub fn strip_prefix(&self, base: &RawPath) -> (r: Option<RawPath>)
        ensures
            match r {
                Some(q) => below(self@, base@) == Some(q@),
                None => below(self@, base@) is None,
            },
    {
        let sp: Vec<(usize, usize)> = self.span_list();
        let mine: Vec<Vec<u8>> = self.part_list();
        let tops: Vec<Vec<u8>> = base.part_list();
        let ghost p = self@;
        proof {
            lemma_spans_ok(p);
            assert(byte_strings(mine@).len() == mine@.len());
            assert(byte_strings(tops@).len() == tops@.len());
        }
        let n: usize = sp.len();
        if !base.is_absolute() && tops.len() == 0 {
            let end: usize = if n > 0 {
                assert(sp@[n - 1].1 == spans(p)[n - 1].1);
                sp[n - 1].1
            } else if self.is_absolute() {
                1
            } else {
                0
            };
            let q: RawPath = RawPath { bytes: copy_range(self.bytes.as_slice(), 0, end) };
            assert(q@ =~= trimmed_end(p));
            return Some(q);
        }
        let me: NormalPath = NormalPath { absolute: self.is_absolute(), names: mine };
        let top: NormalPath = NormalPath { absolute: base.is_absolute(), names: tops };
        if !me.is_under(&top) {
            return None;
        }
        let m: usize = top.names.len();
        if m == n {
            return Some(RawPath::empty());
        }
        assert(sp@[m as int].0 == spans(p)[m as int].0);
        assert(sp@[n - 1].1 == spans(p)[n - 1].1);
        let from: usize = sp[m].0;
        let to: usize = sp[n - 1].1;
        assert(spans(p)[m as int].0 < spans(p)[m as int].1 <= spans(p)[n - 1].1) by {
            if m < n - 1 {
                assert(spans(p)[m as int].1 < spans(p)[n - 1].0);
            }
        }
        Some(RawPath { bytes: copy_range(self.bytes.as_slice(), from, to) })
    }
}

/// Whether `x` is `.`.
fn is_dot(x: &[u8]) -> (r: bool)
    ensures
        r == (x@ == dot()),
{
    let r: bool = x.len() == 1 && x[0] == DOT;
    proof {
        if r {
            assert(x@ =~= dot());
        }
    }
    r
}

/// Whether `x` is `..`.
fn is_dotdot(x: &[u8]) -> (r: bool)
    ensures
        r == (x@ == dotdot()),
{
    let r: bool = x.len() == 2 && x[0] == DOT && x[1] == DOT;
    proof {
        if r {
            assert(x@ =~= dotdot());
        }
    }
    r
}

/// `names` with a slash between each two, behind a slash when `abs`.
fn render(abs: bool, names: &Vec<Vec<u8>>) -> (r: RawPath)
    ensures
        r@ == rendered(abs, byte_strings(names@)),
{
    let ghost ns = byte_strings(names@);
    let mut out: Vec<u8> = Vec::new();
    if abs {
        out.push(SLASH);
    }
    let mut k: usize = 0;
    assert(ns.take(0) =~= Seq::empty());
    assert(out@ =~= rendered(abs, ns.take(0)));
    while k < names.len()
        invariant
            ns == byte_strings(names@),
            k <= names@.len(),
            out@ == rendered(abs, ns.take(k as int)),
        decreases names@.len() - k,
    {
        let ghost before = out@;
        if k > 0 {
            out.push(SLASH);
        }
        append_bytes(&mut out, names[k].as_slice());
        proof {
            let next = ns.take(k + 1);
            assert(next.drop_last() =~= ns.take(k as int));
            assert(next.last() == names@[k as int]@);
            if k == 0 {
                assert(next.len() == 1);
                assert(ns.take(0) =~= Seq::empty());
                assert(joined(ns.take(0)) =~= Seq::empty());
            }
            assert(out@ =~= rendered(abs, next));
        }
        k = k + 1;
    }
    assert(ns.take(k as int) =~= ns);
    RawPath { bytes: out }
}

/// The names that walking through `p` leaves.
pub fn normal_path(p: &RawPath) -> (r: NormalPath)
    ensures
        r.absolute == is_abs(p@),
        r.names_view() == walked(parts(p@)),
{
    let ps: Vec<Vec<u8>> = p.part_list();
    let ghost pv = parts(p@);
    let mut names: Vec<Vec<u8>> = Vec::new();
    let mut k: usize = 0;
    assert(pv.take(0) =~= Seq::empty());
    assert(byte_strings(names@) =~= walked(pv.take(0)));
    while k < ps.len()
        invariant
            byte_strings(ps@) == pv,
            k <= ps@.len(),
            byte_strings(names@) == walked(pv.take(k as int)),
        decreases ps@.len() - k,
    {
        let ghost before = byte_strings(names@);
        proof {
            let next = pv.take(k + 1);
            assert(next.drop_last() =~= pv.take(k as int));
            assert(next.last() == ps@[k as int]@);
        }
        if is_dotdot(ps[k].as_slice()) {
            let ghost held = names@;
            let _ = names.pop();
            proof {
                if held.len() > 0 {
                    assert(byte_strings(names@) =~= before.drop_last());
                } else {
                    assert(byte_strings(names@) =~= before);
                }
            }
        } else if !is_dot(ps[k].as_slice()) {
            names.push(copy_bytes(ps[k].as_slice()));
            assert(byte_strings(names@) =~= before.push(ps@[k as int]@));
        }
        k = k + 1;
    }
    assert(pv.take(k as int) =~= pv) by {
        assert(pv.len() == ps@.len());
    }
    NormalPath { absolute: p.is_absolute(), names }
}

/// Resolves `.` and `..` without looking at any file: the path need not exist.
pub fn normalize_lexical(p: &RawPath) -> (r: RawPath)
    ensures
        r@ == normalized(p@),
{
    let n: NormalPath = normal_path(p);
    render(n.absolute, &n.names)
}

/// The path without its root (`/a/b` becomes `a/b`) and without a leading `.`.
pub fn strip_root(p: &RawPath) -> (r: RawPath)
    ensures
        r@ == rootless(p@),
{
    let ps: Vec<Vec<u8>> = p.part_list();
    let ghost pv = parts(p@);
    let ghost keep = |x: Seq<u8>| x != dot();
    let mut names: Vec<Vec<u8>> = Vec::new();
    let mut k: usize = 0;
    proof {
        reveal(Seq::filter);
        assert(pv.take(0) =~= Seq::empty());
        assert(byte_strings(names@) =~= pv.take(0).filter(keep));
    }
    while k < ps.len()
        invariant
            keep == (|x: Seq<u8>| x != dot()),
            byte_strings(ps@) == pv,
            k <= ps@.len(),
            byte_strings(names@) == pv.take(k as int).filter(keep),
        decreases ps@.len() - k,
    {
        let ghost before = byte_strings(names@);
        proof {
            reveal(Seq::filter);
            let next = pv.take(k + 1);
            assert(next.drop_last() =~= pv.take(k as int));
            assert(next.last() == ps@[k as int]@);
        }
        if !is_dot(ps[k].as_slice()) {
            names.push(copy_bytes(ps[k].as_slice()));
            assert(byte_strings(names@) =~= before.push(ps@[k as int]@));
        }
        k = k + 1;
    }
    assert(pv.take(k as int) =~= pv) by {
        assert(pv.len() == ps@.len());
    }
    render(false, &names)
}

/// `p` as an absolute path, seen from the directory `cwd`.
pub fn absolutize(p: &RawPath, cwd: &RawPath) -> (r: RawPath)
    ensures
        r@ == absolute_of(p@, cwd@),
{
    if p.is_absolute() {
        p.clone()
    } else {
        cwd.join(p)
    }
}

/// `p` names something in the directory that the process works in.
pub open spec fn in_working_dir(p: Seq<u8>) -> bool {
    match parent_of(p) {
        None => true,
        Some(q) => q.len() == 0 || (!is_abs(q) && parts(q) == seq![dot()]),
    }
}

/// Whether `p` names something in the directory that the process works in.
pub fn in_current_dir(p: &RawPath) -> (r: bool)
    ensures
        r == in_working_dir(p@),
{
    match p.parent() {
        None => true,
        Some(q) => {
            if q.bytes.len() == 0 {
                return true;
            }
            let ps: Vec<Vec<u8>> = q.part_list();
            let ghost pv = parts(q@);
            assert(byte_strings(ps@).len() == ps@.len());
            if ps.len() != 1 {
                return false;
            }
            assert(byte_strings(ps@)[0] == ps@[0]@);
            let d: bool = is_dot(ps[0].as_slice());
            proof {
                if d {
                    assert(pv =~= seq![dot()]);
                } else {
                    assert(pv[0] != seq![dot()][0]);
                }
            }
            d && !q.is_absolute()
        },
    }
}

} // verus!
