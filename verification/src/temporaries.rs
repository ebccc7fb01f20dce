//! The temporary files that are being written, to be removed when the user
//! interrupts.

use vstd::prelude::*;

use crate::path::RawPath;
use crate::plan::path_views;

verus! {

/// The temporary files that are being written.
#[derive(Debug)]
pub struct Temporaries {
    list: Vec<RawPath>,
}

impl View for Temporaries {
    type V = Seq<Seq<u8>>;

    closed spec fn view(&self) -> Seq<Seq<u8>> {
        path_views(self.list@)
    }
}

impl Temporaries {
    /// No path is there twice.
    pub open spec fn wf(self) -> bool {
        self@.no_duplicates()
    }

    /// None.
    pub fn new() -> (r: Temporaries)
        ensures
            r.wf(),
            r@ == Seq::<Seq<u8>>::empty(),
    {
        let r: Temporaries = Temporaries { list: Vec::new() };
        assert(r@ =~= Seq::empty());
        r
    }

    /// Where `p` is.
    fn position(&self, p: &RawPath) -> (r: Option<usize>)
        ensures
            match r {
                Some(i) => i < self@.len() && self@[i as int] == p@,
                None => !self@.contains(p@),
            },
    {
        let mut i: usize = 0;
        while i < self.list.len()
            invariant
                i <= self.list@.len(),
                forall|j: int| 0 <= j < i ==> self@[j] != p@,
            decreases self.list@.len() - i,
        {
            if self.list[i].same(p) {
                return Some(i);
            }
            assert(self@[i as int] == self.list@[i as int]@);
            i = i + 1;
        }
        None
    }

    /// Adds `p`.
    pub fn set_current_tmp(&mut self, p: &RawPath)
        requires
            old(self).wf(),
        ensures
            final(self).wf(),
            final(self)@ == if old(self)@.contains(p@) {
                old(self)@
            } else {
                old(self)@.push(p@)
            },
    {
        match self.position(p) {
            Some(i) => {
                assert(self@.contains(p@));
            },
            None => {
                let ghost before = self@;
                self.list.push(p.clone());
                assert(self@ =~= before.push(p@));
            },
        }
    }

    /// Takes `p` away.
    pub fn clear_current_tmp(&mut self, p: &RawPath)
        requires
            old(self).wf(),
        ensures
            final(self).wf(),
            !final(self)@.contains(p@),
            forall|q: Seq<u8>| q != p@ ==> (#[trigger] final(self)@.contains(q) <==> old(self)@.contains(q)),
    {
        match self.position(p) {
            Some(i) => {
                let ghost before = self@;
                let _ = self.list.remove(i);
                assert(self@ =~= before.remove(i as int));
                proof {
                    let now = self@;
                    let k = i as int;
                    assert forall|j: int| 0 <= j < now.len() implies now[j] == before[if j < k {
                        j
                    } else {
                        j + 1
                    }] by {}
                    assert(now.no_duplicates());
                    assert(!now.contains(p@));
                    assert forall|q: Seq<u8>| q != p@ implies (#[trigger] now.contains(q)
                        <==> before.contains(q)) by {
                        if before.contains(q) {
                            let j = choose|j: int| 0 <= j < before.len() && before[j] == q;
                            assert(now[if j < k {
                                j
                            } else {
                                j - 1
                            }] == q);
                        }
                    }
                }
            },
            None => {},
        }
    }

    /// How many there are.
    pub fn len(&self) -> (r: usize)
        ensures
            r == self@.len(),
    {
        self.list.len()
    }

    /// One of them.
    pub fn get(&self, i: usize) -> (r: &RawPath)
        requires
            i < self@.len(),
        ensures
            r@ == self@[i as int],
    {
        &self.list[i]
    }
}

} // verus!
