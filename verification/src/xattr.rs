//! Copying extended attributes, one by one.
//!
//! An attribute that cannot be read or written is passed over: many file
//! systems do not take all of them.

use vstd::prelude::*;

use crate::path::byte_strings;

verus! {

/// The stretches of `s` between zero bytes.
pub open spec fn stretches(s: Seq<u8>) -> Seq<Seq<u8>>
    decreases s.len(),
{
    if s.len() == 0 {
        seq![s]
    } else if s.last() == 0 {
        stretches(s.drop_last()).push(Seq::empty())
    } else {
        let before = stretches(s.drop_last());
        before.drop_last().push(before.last().push(s.last()))
    }
}

/// The names in a list where a zero byte ends each.
pub open spec fn names_of(s: Seq<u8>) -> Seq<Seq<u8>> {
    stretches(s).filter(|x: Seq<u8>| x.len() > 0)
}

/// The names in a list where a zero byte ends each.
pub fn xattr_names(list: &[u8]) -> (r: Vec<Vec<u8>>)
    ensures
        byte_strings(r@) == names_of(list@),
{
    let ghost s = list@;
    let ghost keep = |x: Seq<u8>| x.len() > 0;
    let ghost mut done: Seq<Seq<u8>> = Seq::empty();
    let mut out: Vec<Vec<u8>> = Vec::new();
    let mut current: Vec<u8> = Vec::new();
    let mut i: usize = 0;
    proof {
        reveal(Seq::filter);
        assert(s.take(0) =~= Seq::empty());
        assert(byte_strings(out@) =~= Seq::empty());
        assert(done.push(current@) =~= stretches(s.take(0)));
    }
    while i < list.len()
        invariant
            s == list@,
            keep == (|x: Seq<u8>| x.len() > 0),
            i <= s.len(),
            done.push(current@) == stretches(s.take(i as int)),
            byte_strings(out@) == done.filter(keep),
        decreases s.len() - i,
    {
        let ghost before = done.push(current@);
        let ghost c = current@;
        let ghost held = byte_strings(out@);
        proof {
            reveal(Seq::filter);
            assert(s.take(i + 1).drop_last() =~= s.take(i as int));
            assert(before.drop_last() =~= done);
            assert(done.push(c).drop_last() =~= done);
        }
        if list[i] == 0 {
            if current.len() > 0 {
                out.push(current);
                assert(byte_strings(out@) =~= held.push(c));
            }
            current = Vec::new();
            proof {
                done = done.push(c);
                assert(done.push(current@) =~= before.push(Seq::empty()));
            }
        } else {
            current.push(list[i]);
            assert(done.push(current@) =~= before.drop_last().push(before.last().push(s[i as int])));
        }
        i = i + 1;
    }
    let ghost c = current@;
    let ghost held = byte_strings(out@);
    proof {
        reveal(Seq::filter);
        assert(s.take(i as int) =~= s);
        assert(done.push(c).drop_last() =~= done);
    }
    if current.len() > 0 {
        out.push(current);
        assert(byte_strings(out@) =~= held.push(c));
    }
    out
}

/// Where the copy of the attributes is.
#[derive(Debug, Clone, Copy, PartialEq, Eq, Structural)]
pub enum XattrAt {
    /// Asking how long the list of names is.
    ListLength,
    /// Reading the list, with room for this many bytes.
    List(usize),
    /// Asking how long the value with this number is.
    ValueLength(usize),
    /// Reading the value with this number, with room for this many bytes.
    Value { number: usize, room: usize },
    /// Writing the value with this number, so many bytes of it.
    Store { number: usize, len: usize },
    Done,
}

/// What an operation on attributes came to.
#[derive(Debug)]
pub enum XattrReply {
    /// A length, or a negative number.
    Length(i64),
    /// The list of names as it was read, or nothing.
    Names(Option<Vec<u8>>),
    /// A value was written, or not.
    Stored,
}

/// The copy of the attributes of a file.
#[derive(Debug)]
pub struct XattrCopy {
    pub names: Vec<Vec<u8>>,
    pub at: XattrAt,
}

/// Where the copy goes on with the attribute `number` of `count`.
pub open spec fn from_number(number: usize, count: int) -> XattrAt {
    if number < count {
        XattrAt::ValueLength(number)
    } else {
        XattrAt::Done
    }
}

impl XattrCopy {
    /// The numbers speak of names that are there.
    pub open spec fn wf(self) -> bool {
        match self.at {
            XattrAt::ValueLength(n) => n < self.names@.len(),
            XattrAt::Value { number, .. } => number < self.names@.len(),
            XattrAt::Store { number, .. } => number < self.names@.len(),
            _ => true,
        }
    }

    /// The attribute at hand, by its number.
    pub open spec fn number(self) -> Option<usize> {
        match self.at {
            XattrAt::ValueLength(n) => Some(n),
            XattrAt::Value { number, .. } => Some(number),
            XattrAt::Store { number, .. } => Some(number),
            _ => None,
        }
    }

    /// The operations on the list that are still to come.
    pub open spec fn listing_left(self) -> int {
        match self.at {
            XattrAt::ListLength => 2,
            XattrAt::List(_) => 1,
            _ => 0,
        }
    }

    /// An upper bound on the operations on attributes that are still to come,
    /// once the list is read.
    pub open spec fn copying_left(self) -> int {
        let n = self.names@.len() as int;
        match self.at {
            XattrAt::ValueLength(k) => 3 * (n - k),
            XattrAt::Value { number, .. } => 3 * (n - number) - 1,
            XattrAt::Store { number, .. } => 3 * (n - number) - 2,
            _ => 0,
        }
    }

    /// Nothing copied so far.
    pub fn new() -> (r: XattrCopy)
        ensures
            r.wf(),
            r.at == XattrAt::ListLength,
            byte_strings(r.names@) == Seq::<Seq<u8>>::empty(),
    {
        let r: XattrCopy = XattrCopy { names: Vec::new(), at: XattrAt::ListLength };
        assert(byte_strings(r.names@) =~= Seq::empty());
        r
    }

    fn go_to_first(&self) -> (r: XattrAt)
        ensures
            r == from_number(0, self.names@.len() as int),
    {
        if self.names.len() > 0 {
            XattrAt::ValueLength(0)
        } else {
            XattrAt::Done
        }
    }

    fn go_past(&self, number: usize) -> (r: XattrAt)
        requires
            number < self.names@.len(),
        ensures
            r == from_number((number + 1) as usize, self.names@.len() as int),
            self.names@.len() <= usize::MAX,
    {
        let count: usize = self.names.len();
        if count - number > 1 {
            XattrAt::ValueLength(number + 1)
        } else {
            XattrAt::Done
        }
    }

    /// Goes on, now that the operation came to `reply`. Without a list there
    /// is nothing to copy; an attribute that cannot be read is passed over.
    /// Each reply brings the copy nearer to its end.
    pub fn reply(&mut self, reply: XattrReply)
        requires
            old(self).wf(),
        ensures
            final(self).wf(),
            match (old(self).at, reply) {
                (XattrAt::ListLength, XattrReply::Length(n)) => final(self).names@
                    == old(self).names@ && final(self).at == if n <= 0 {
                    XattrAt::Done
                } else {
                    XattrAt::List(n as usize)
                },
                (XattrAt::List(_), XattrReply::Names(Some(list))) => byte_strings(
                    final(self).names@,
                ) == names_of(list@) && final(self).at == from_number(
                    0,
                    final(self).names@.len() as int,
                ),
                (XattrAt::ValueLength(k), XattrReply::Length(n)) => final(self).names@
                    == old(self).names@ && final(self).at == if n < 0 {
                    from_number((k + 1) as usize, old(self).names@.len() as int)
                } else {
                    XattrAt::Value { number: k, room: n as usize }
                },
                (XattrAt::Value { number, .. }, XattrReply::Length(n)) => final(self).names@
                    == old(self).names@ && final(self).at == if n < 0 {
                    from_number((number + 1) as usize, old(self).names@.len() as int)
                } else {
                    XattrAt::Store { number, len: n as usize }
                },
                (XattrAt::Store { number, .. }, _) => final(self).names@ == old(self).names@
                    && final(self).at == from_number(
                    (number + 1) as usize,
                    old(self).names@.len() as int,
                ),
                _ => final(self).names@ == old(self).names@ && final(self).at == XattrAt::Done,
            },
            old(self).at != XattrAt::Done ==> final(self).listing_left() < old(self).listing_left()
                || (final(self).listing_left() == old(self).listing_left() && 0
                <= final(self).copying_left() < old(self).copying_left()),
    {
        match (self.at, reply) {
            (XattrAt::ListLength, XattrReply::Length(n)) => {
                self.at = if n <= 0 {
                    XattrAt::Done
                } else {
                    XattrAt::List(n as usize)
                };
            },
            (XattrAt::List(_), XattrReply::Names(Some(list))) => {
                self.names = xattr_names(list.as_slice());
                assert(byte_strings(self.names@).len() == self.names@.len());
                self.at = self.go_to_first();
            },
            (XattrAt::ValueLength(k), XattrReply::Length(n)) => {
                self.at = if n < 0 {
                    self.go_past(k)
                } else {
                    XattrAt::Value { number: k, room: n as usize }
                };
            },
            (XattrAt::Value { number, .. }, XattrReply::Length(n)) => {
                self.at = if n < 0 {
                    self.go_past(number)
                } else {
                    XattrAt::Store { number, len: n as usize }
                };
            },
            (XattrAt::Store { number, .. }, _) => {
                self.at = self.go_past(number);
            },
            _ => {
                self.at = XattrAt::Done;
            },
        }
    }
}

} // verus!
