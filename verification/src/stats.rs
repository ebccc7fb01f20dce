//! What has been done, counted.

use vstd::prelude::*;
use vstd::seq_lib::lemma_multiset_commutative;
use vstd::string::*;

use crate::text::texts;

verus! {

/// What a copy has done.
#[derive(Debug)]
pub struct CopyStats {
    pub files_copied: usize,
    pub dirs_created: usize,
    pub bytes_copied: u64,
    pub already_present: usize,
    /// Kept as they were (`-n`, `-u`, `-i`).
    pub skipped: usize,
    /// Files whose checksum was compared (`--verify`).
    pub verified: usize,
    pub warnings: Vec<String>,
    pub errors: Vec<String>,
}

/// The same, with numbers without a limit.
#[verifier::ext_equal]
pub struct StatsView {
    pub files_copied: int,
    pub dirs_created: int,
    pub bytes_copied: int,
    pub already_present: int,
    pub skipped: int,
    pub verified: int,
    pub warnings: Seq<Seq<char>>,
    pub errors: Seq<Seq<char>>,
}

impl View for CopyStats {
    type V = StatsView;

    open spec fn view(&self) -> StatsView {
        StatsView {
            files_copied: self.files_copied as int,
            dirs_created: self.dirs_created as int,
            bytes_copied: self.bytes_copied as int,
            already_present: self.already_present as int,
            skipped: self.skipped as int,
            verified: self.verified as int,
            warnings: texts(self.warnings@),
            errors: texts(self.errors@),
        }
    }
}

/// Nothing done.
pub open spec fn nothing_done() -> StatsView {
    StatsView {
        files_copied: 0,
        dirs_created: 0,
        bytes_copied: 0,
        already_present: 0,
        skipped: 0,
        verified: 0,
        warnings: Seq::empty(),
        errors: Seq::empty(),
    }
}

impl StatsView {
    /// The numbers have room.
    pub open spec fn fits(self) -> bool {
        &&& self.files_copied <= usize::MAX
        &&& self.dirs_created <= usize::MAX
        &&& self.bytes_copied <= u64::MAX
        &&& self.already_present <= usize::MAX
        &&& self.skipped <= usize::MAX
        &&& self.verified <= usize::MAX
    }

    /// What two have done together.
    pub open spec fn plus(self, other: StatsView) -> StatsView {
        StatsView {
            files_copied: self.files_copied + other.files_copied,
            dirs_created: self.dirs_created + other.dirs_created,
            bytes_copied: self.bytes_copied + other.bytes_copied,
            already_present: self.already_present + other.already_present,
            skipped: self.skipped + other.skipped,
            verified: self.verified + other.verified,
            warnings: self.warnings + other.warnings,
            errors: self.errors + other.errors,
        }
    }

    /// With one more error.
    pub open spec fn with_error(self, m: Seq<char>) -> StatsView {
        StatsView { errors: self.errors.push(m), ..self }
    }

    /// With one more warning.
    pub open spec fn with_warning(self, m: Seq<char>) -> StatsView {
        StatsView { warnings: self.warnings.push(m), ..self }
    }
}

impl Default for CopyStats {
    fn default() -> (r: CopyStats)
        ensures
            r@ == nothing_done(),
    {
        let r: CopyStats = CopyStats {
            files_copied: 0,
            dirs_created: 0,
            bytes_copied: 0,
            already_present: 0,
            skipped: 0,
            verified: 0,
            warnings: Vec::new(),
            errors: Vec::new(),
        };
        assert(r@ =~= nothing_done());
        r
    }
}

/// Moves the texts of `more` behind those of `v`.
fn append_texts(v: &mut Vec<String>, more: Vec<String>)
    ensures
        texts(final(v)@) == texts(old(v)@) + texts(more@),
{
    let mut rest: Vec<String> = more;
    let ghost a = texts(v@);
    let ghost b = texts(rest@);
    v.append(&mut rest);
    assert(texts(v@) =~= a + b);
}

impl CopyStats {
    /// Adds what a worker has done.
    pub fn merge(&mut self, other: CopyStats)
        requires
            old(self)@.plus(other@).fits(),
        ensures
            final(self)@ == old(self)@.plus(other@),
    {
        self.files_copied = self.files_copied + other.files_copied;
        self.dirs_created = self.dirs_created + other.dirs_created;
        self.bytes_copied = self.bytes_copied + other.bytes_copied;
        self.already_present = self.already_present + other.already_present;
        self.skipped = self.skipped + other.skipped;
        self.verified = self.verified + other.verified;
        append_texts(&mut self.warnings, other.warnings);
        append_texts(&mut self.errors, other.errors);
        assert(self@ =~= old(self)@.plus(other@));
    }

    /// Whether what `other` has done can be added.
    pub fn can_merge(&self, other: &CopyStats) -> (r: bool)
        ensures
            r == self@.plus(other@).fits(),
    {
        self.files_copied <= usize::MAX - other.files_copied && self.dirs_created <= usize::MAX
            - other.dirs_created && self.bytes_copied <= u64::MAX - other.bytes_copied
            && self.already_present <= usize::MAX - other.already_present && self.skipped
            <= usize::MAX - other.skipped && self.verified <= usize::MAX - other.verified
    }

    /// Whether one more entry with `bytes` bytes can be counted.
    pub fn has_room(&self, bytes: u64) -> (r: bool)
        ensures
            r == self@.has_room_for(bytes),
    {
        self.files_copied < usize::MAX && self.dirs_created < usize::MAX && self.bytes_copied
            <= u64::MAX - bytes && self.already_present < usize::MAX && self.skipped < usize::MAX
            && self.verified < usize::MAX
    }

    /// Adds an error.
    pub fn push_error(&mut self, m: String)
        ensures
            final(self)@ == old(self)@.with_error(m@),
    {
        self.errors.push(m);
        assert(self@ =~= old(self)@.with_error(m@));
    }

    /// Adds a warning.
    pub fn push_warning(&mut self, m: String)
        ensures
            final(self)@ == old(self)@.with_warning(m@),
    {
        self.warnings.push(m);
        assert(self@ =~= old(self)@.with_warning(m@));
    }
}

impl StatsView {
    /// One more entry with `bytes` bytes can be counted.
    pub open spec fn has_room_for(self, bytes: u64) -> bool {
        &&& self.files_copied < usize::MAX
        &&& self.dirs_created < usize::MAX
        &&& self.bytes_copied + bytes <= u64::MAX
        &&& self.already_present < usize::MAX
        &&& self.skipped < usize::MAX
        &&& self.verified < usize::MAX
    }
}

/// It does not matter which of several workers are added up first.
pub proof fn merging_is_associative(a: StatsView, b: StatsView, c: StatsView)
    ensures
        a.plus(b).plus(c) == a.plus(b.plus(c)),
{
    assert(a.plus(b).plus(c) =~= a.plus(b.plus(c)));
}

/// A worker that did nothing changes nothing.
pub proof fn merging_nothing(a: StatsView)
    ensures
        a.plus(nothing_done()) == a,
        nothing_done().plus(a) == a,
{
    assert(a.plus(nothing_done()) =~= a);
    assert(nothing_done().plus(a) =~= a);
}

/// The numbers are the same, and so are the warnings and the errors, whatever
/// their order.
pub open spec fn same_count(a: StatsView, b: StatsView) -> bool {
    &&& a.files_copied == b.files_copied
    &&& a.dirs_created == b.dirs_created
    &&& a.bytes_copied == b.bytes_copied
    &&& a.already_present == b.already_present
    &&& a.skipped == b.skipped
    &&& a.verified == b.verified
    &&& a.warnings.to_multiset() == b.warnings.to_multiset()
    &&& a.errors.to_multiset() == b.errors.to_multiset()
}

/// In whatever order workers are added up, the numbers are the same, and so
/// are the warnings and the errors.
pub proof fn merging_order_does_not_matter(a: StatsView, b: StatsView)
    ensures
        same_count(a.plus(b), b.plus(a)),
{
    broadcast use vstd::multiset::group_multiset_axioms;

    lemma_multiset_commutative(a.errors, b.errors);
    lemma_multiset_commutative(b.errors, a.errors);
    lemma_multiset_commutative(a.warnings, b.warnings);
    lemma_multiset_commutative(b.warnings, a.warnings);
    let (x, y) = (a.plus(b), b.plus(a));
    assert(x.errors.to_multiset() =~= y.errors.to_multiset());
    assert(x.warnings.to_multiset() =~= y.warnings.to_multiset());
}

} // verus!
