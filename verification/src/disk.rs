//! What operations do to a disk: the ground that the laws on contents stand on.
//!
//! Nothing here runs. A run has to do with a few names; what they stand for is
//! written down before and after each operation, and an operation is sound when
//! it changes no more than it is meant to.

use vstd::prelude::*;

use crate::engine::{Facts, Job, Loc, Op, Reply, Route, Times};
use crate::engine_laws::op_number;
use crate::plan::FileKind;

verus! {

/// What a name stands for.
#[verifier::ext_equal]
pub struct Node {
    pub kind: FileKind,
    /// The contents of a file, or where a link leads.
    pub data: Seq<u8>,
    pub mode: u32,
    pub times: Times,
    pub uid: u32,
    pub gid: u32,
}

/// What the names of a run stand for.
#[verifier::ext_equal]
pub struct Desk {
    /// The source.
    pub src: Option<Node>,
    /// What is reached by the source: itself, or what a link there leads to.
    pub origin: Option<Node>,
    /// The destination.
    pub dst: Option<Node>,
    /// What a link at the destination leads to.
    pub beyond: Option<Node>,
    /// The temporary name beside the destination.
    pub tmp: Option<Node>,
}

/// A link stands there.
pub open spec fn is_link(n: Option<Node>) -> bool {
    n matches Some(x) && x.kind == FileKind::Symlink
}

impl Desk {
    /// What a look at a place sees.
    pub open spec fn seen(self, at: Loc, follow: bool) -> Option<Node> {
        match at {
            Loc::Src => if follow {
                self.origin
            } else {
                self.src
            },
            Loc::Dst => if follow && is_link(self.dst) {
                self.beyond
            } else {
                self.dst
            },
            Loc::Tmp => self.tmp,
        }
    }

    /// What stands at the destination or under the temporary name.
    pub open spec fn at(self, l: Loc) -> Option<Node> {
        self.seen(l, false)
    }
}

/// The size that a look tells; no file has more bytes than can be counted.
pub open spec fn size_of_node(n: Node) -> u64 {
    n.data.len() as u64
}

/// `f` tells of `n` what there is to tell.
pub open spec fn describes(f: Facts, n: Node) -> bool {
    &&& f.kind == n.kind
    &&& n.kind == FileKind::File ==> f.len == size_of_node(n)
    &&& f.mode == n.mode
    &&& f.times == n.times
    &&& f.uid == n.uid
    &&& f.gid == n.gid
}

/// What is there keeps its contents.
pub open spec fn same_contents(a: Option<Node>, b: Option<Node>) -> bool {
    match (a, b) {
        (Some(x), Some(y)) => x.kind == y.kind && x.data == y.data,
        (None, None) => true,
        _ => false,
    }
}

/// `b` is `a` but for the node at `l`.
pub open spec fn same_but(a: Desk, b: Desk, l: Loc) -> bool {
    &&& b.src == a.src
    &&& b.origin == a.origin
    &&& l != Loc::Dst ==> b.dst == a.dst && b.beyond == a.beyond
    &&& l != Loc::Tmp ==> b.tmp == a.tmp
}

/// The bytes got through.
pub open spec fn got_through(route: Route, reply: Reply) -> bool {
    if route == Route::Clone {
        reply == Reply::Done
    } else {
        reply is Copied
    }
}

/// The temporary file is there, with the contents of the source.
pub open spec fn holds_the_source(n: Option<Node>, origin: Option<Node>) -> bool {
    match (n, origin) {
        (Some(x), Some(o)) => x.kind == FileKind::File && x.data == o.data,
        _ => false,
    }
}

/// `n` is a link that leads where the link at the source leads.
pub open spec fn leads_like(n: Option<Node>, src: Option<Node>) -> bool {
    match (n, src) {
        (Some(x), Some(s)) => x.kind == FileKind::Symlink && x.data == s.data,
        _ => false,
    }
}

/// `b` is `a` with this mode; a link keeps its own.
pub open spec fn with_mode(a: Option<Node>, mode: u32, b: Option<Node>) -> bool {
    match a {
        Some(n) => n.kind != FileKind::Symlink ==> b == Some(Node { mode, ..n }),
        None => true,
    }
}

/// `b` is `a` with these times; a link keeps its own.
pub open spec fn with_times(a: Option<Node>, times: Times, b: Option<Node>) -> bool {
    match a {
        Some(n) => n.kind != FileKind::Symlink ==> b == Some(Node { times, ..n }),
        None => true,
    }
}

/// An operation does what it says when it succeeds, changes one place at most,
/// and never the source; a look sees what is there.
pub open spec fn sound(op: Op, a: Desk, reply: Reply, b: Desk) -> bool {
    let done = reply == Reply::Done;
    match op {
        Op::Look { at, follow } => b == a && match a.seen(at, follow) {
            Some(n) => reply matches Reply::Saw(f) && describes(f, n),
            None => !(reply is Saw),
        },
        Op::Ask | Op::ListBackups | Op::MakeParent | Op::ReadLink | Op::Checksum(_) => b == a,
        Op::SetAside(_) | Op::RemoveTree => same_but(a, b, Loc::Dst) && (done ==> b.dst is None),
        Op::RemoveFile(l) => same_but(a, b, l) && (done && l == Loc::Dst ==> b.dst is None),
        Op::HardLink => same_but(a, b, Loc::Dst) && (done ==> b.dst == a.src),
        Op::SymlinkToSource => same_but(a, b, Loc::Dst) && (done ==> is_link(b.dst)),
        Op::CreateEmpty => same_but(a, b, Loc::Dst) && (done ==> {
            b.dst matches Some(n) && n.kind == FileKind::File && n.data.len() == 0
        }),
        Op::Relink => same_but(a, b, Loc::Dst) && (done ==> leads_like(b.dst, a.src)),
        Op::MakeFifo => same_but(a, b, Loc::Dst) && (done ==> {
            b.dst matches Some(n) && n.kind == FileKind::Fifo
        }),
        Op::Transfer(route) => same_but(a, b, Loc::Tmp) && (got_through(route, reply)
            ==> holds_the_source(b.tmp, a.origin)),
        Op::CopyPermissions => same_but(a, b, Loc::Tmp) && same_contents(a.tmp, b.tmp),
        Op::SetOwner { at, .. } => same_but(a, b, at) && same_contents(a.at(at), b.at(at)),
        Op::SetMode { at, mode } => same_but(a, b, at) && same_contents(a.at(at), b.at(at)) && (
        done ==> with_mode(a.at(at), mode, b.at(at))),
        Op::SetTimes { at, times } => same_but(a, b, at) && same_contents(a.at(at), b.at(at)) && (
        done ==> with_times(a.at(at), times, b.at(at))),
        Op::SetLinkTimes(_) => same_but(a, b, Loc::Dst) && same_contents(a.dst, b.dst),
        Op::CopyXattrs { at, .. } => same_but(a, b, at) && b.at(at) == a.at(at),
        Op::Publish => if done {
            same_but(Desk { tmp: None, ..a }, b, Loc::Dst) && b.dst == a.tmp
        } else {
            b == a
        },
        Op::Rename => true,
    }
}

/// `b` belongs to this owner and this group.
pub open spec fn with_owner(a: Option<Node>, uid: u32, gid: u32, b: Option<Node>) -> bool {
    a is Some ==> (b matches Some(n) && n.uid == uid && n.gid == gid)
}

/// `b` is `a` but for its times.
pub open spec fn same_but_times(a: Option<Node>, b: Option<Node>) -> bool {
    match (a, b) {
        (Some(x), Some(y)) => y == (Node { times: y.times, ..x }),
        (None, None) => true,
        _ => false,
    }
}

/// A change of owner that is reported as done is done, and so are the times of
/// a link, which change nothing else.
pub open spec fn minds_owners(op: Op, a: Desk, reply: Reply, b: Desk) -> bool {
    let done = reply == Reply::Done;
    match op {
        Op::SetOwner { at, uid, gid } => done && at != Loc::Src ==> with_owner(
            a.at(at),
            uid,
            gid,
            b.at(at),
        ),
        Op::SetLinkTimes(times) => same_but_times(a.dst, b.dst) && (done ==> (b.dst matches Some(n)
            ==> n.times == times)),
        _ => true,
    }
}

/// What a run met: the replies, and the desk before the first and after each.
pub struct Play {
    pub replies: Seq<Reply>,
    pub desks: Seq<Desk>,
}

impl Play {
    /// The desk before the run.
    pub open spec fn before(self) -> Desk {
        self.desks[0]
    }

    /// The desk after the last reply.
    pub open spec fn end(self) -> Desk {
        self.desks[self.replies.len() as int]
    }

    /// The first `n` replies.
    pub open spec fn first(self, n: int) -> Play {
        Play { replies: self.replies.take(n), desks: self.desks.take(n + 1) }
    }
}

/// The run of `job` met this on a disk whose operations are sound.
pub open spec fn plays(job: Job, play: Play) -> bool {
    &&& play.desks.len() == play.replies.len() + 1
    &&& forall|i: int|
        0 <= i < play.replies.len() ==> match #[trigger] op_number(job, play.replies, i) {
            Some(op) => sound(op, play.desks[i], play.replies[i], play.desks[i + 1]),
            None => play.desks[i + 1] == play.desks[i],
        }
}

/// Every operation of the run minded owners.
pub open spec fn all_mind_owners(job: Job, play: Play) -> bool {
    forall|i: int|
        0 <= i < play.replies.len() ==> (#[trigger] op_number(job, play.replies, i) matches Some(op)
            ==> minds_owners(op, play.desks[i], play.replies[i], play.desks[i + 1]))
}

} // verus!
