//! How bytes get from a source into a temporary file.

use vstd::arithmetic::div_mod::{
    lemma_div_is_ordered_by_denominator, lemma_fundamental_div_mod, lemma_mod_bound,
};
use vstd::arithmetic::power2::{lemma2_to64, lemma_pow2_unfold, pow2};
use vstd::prelude::*;
use vstd::string::*;

use crate::bytes::{all_zero, zeroed};
use crate::engine::Route;
use crate::utils::{
    double_quotient, doublings, halvings, nearest, nearest_u128, round_to_double, to_double,
};

verus! {

/// The size of a buffer.
pub const BUFFER_SMALL: usize = 262144;

/// The size of a buffer for large files and for checksums.
pub const BUFFER_LARGE: usize = 4194304;

/// From this size on a file is large.
pub const LARGE_FILE_THRESHOLD: u64 = 1073741824;

/// The size of the buffer for a file of `size_hint` bytes.
pub fn buffer_size(route: Route, size_hint: u64) -> (r: usize)
    ensures
        r == if route == Route::Buffered && size_hint >= LARGE_FILE_THRESHOLD {
            BUFFER_LARGE
        } else {
            BUFFER_SMALL
        },
        r == if route == Route::Buffered && size_hint >= 1024 * 1024 * 1024 {
            4 * 1024 * 1024
        } else {
            256 * 1024
        },
{
    if route == Route::Buffered && size_hint >= LARGE_FILE_THRESHOLD {
        BUFFER_LARGE
    } else {
        BUFFER_SMALL
    }
}

// ---------------------------------------------------------------------------
// Block by block
// ---------------------------------------------------------------------------

/// What a read came to.
#[derive(Debug, Clone, Copy, PartialEq, Eq, Structural)]
pub enum ReadDone {
    /// This many bytes; none at the end.
    Got(usize),
    /// A signal came in between.
    Interrupted,
    Failed,
}

/// What follows a read.
#[derive(Debug, Clone, Copy, PartialEq, Eq, Structural)]
pub enum Next {
    /// Read once more.
    ReadAgain,
    /// Write the block.
    Write,
    /// Leave a hole as long as the block.
    Skip,
    /// All is read.
    Finish,
    /// Give up.
    Stop,
}

/// A copy block by block.
#[derive(Debug, Clone, Copy, PartialEq, Eq, Structural)]
pub struct Transfer {
    /// Blocks of zeros become holes.
    pub holes: bool,
    /// The bytes that have gone by.
    pub total: u64,
}

/// A block becomes a hole.
pub open spec fn becomes_hole(holes: bool, block: Seq<u8>) -> bool {
    holes && zeroed(block)
}

impl Transfer {
    /// A copy that has not begun.
    pub fn new(route: Route) -> (r: Transfer)
        ensures
            r == (Transfer { holes: route == Route::Sparse, total: 0 }),
    {
        Transfer { holes: route == Route::Sparse, total: 0 }
    }

    /// What follows the read that came to `done` and left `block`.
    pub fn took(&mut self, done: ReadDone, block: &[u8]) -> (r: Next)
        requires
            done matches ReadDone::Got(n) ==> n == block@.len() && old(self).total + n <= u64::MAX,
        ensures
            final(self).holes == old(self).holes,
            final(self).total == match done {
                ReadDone::Got(n) => old(self).total + n,
                _ => old(self).total as int,
            },
            r == match done {
                ReadDone::Failed => Next::Stop,
                ReadDone::Interrupted => Next::ReadAgain,
                ReadDone::Got(n) => if n == 0 {
                    Next::Finish
                } else if becomes_hole(old(self).holes, block@) {
                    Next::Skip
                } else {
                    Next::Write
                },
            },
    {
        match done {
            ReadDone::Failed => Next::Stop,
            ReadDone::Interrupted => Next::ReadAgain,
            ReadDone::Got(n) => {
                if n == 0 {
                    return Next::Finish;
                }
                self.total = self.total + n as u64;
                if self.holes && all_zero(block) {
                    Next::Skip
                } else {
                    Next::Write
                }
            },
        }
    }

    /// The length that the file is given at the end, so that a hole there
    /// counts.
    pub fn final_length(&self) -> (r: Option<u64>)
        ensures
            r == if self.holes {
                Some(self.total)
            } else {
                None
            },
    {
        if self.holes {
            Some(self.total)
        } else {
            None
        }
    }
}

/// A file that is written from its start: its contents, and where the next
/// block goes.
#[verifier::ext_equal]
pub struct Sink {
    pub contents: Seq<u8>,
    pub pos: int,
}

/// `s` cut or filled up with zeros to `n` bytes.
pub open spec fn resized(s: Seq<u8>, n: int) -> Seq<u8> {
    Seq::new(
        n as nat,
        |i: int|
            if i < s.len() {
                s[i]
            } else {
                0u8
            },
    )
}

/// The file after one more block: written, or left out as a hole.
pub open spec fn after_block(f: Sink, holes: bool, block: Seq<u8>) -> Sink {
    if becomes_hole(holes, block) {
        Sink { contents: f.contents, pos: f.pos + block.len() }
    } else {
        Sink { contents: resized(f.contents, f.pos) + block, pos: f.pos + block.len() }
    }
}

/// The file after all blocks.
pub open spec fn after_blocks(holes: bool, blocks: Seq<Seq<u8>>) -> Sink
    decreases blocks.len(),
{
    if blocks.len() == 0 {
        Sink { contents: Seq::empty(), pos: 0 }
    } else {
        after_block(after_blocks(holes, blocks.drop_last()), holes, blocks.last())
    }
}

/// The blocks, one behind the other.
pub open spec fn concatenated(blocks: Seq<Seq<u8>>) -> Seq<u8>
    decreases blocks.len(),
{
    if blocks.len() == 0 {
        Seq::empty()
    } else {
        concatenated(blocks.drop_last()) + blocks.last()
    }
}

proof fn lemma_after_blocks(holes: bool, blocks: Seq<Seq<u8>>)
    ensures
        ({
            let f = after_blocks(holes, blocks);
            &&& f.pos == concatenated(blocks).len()
            &&& f.contents.len() <= f.pos
            &&& resized(f.contents, f.pos) == concatenated(blocks)
            &&& !holes ==> f.contents == concatenated(blocks)
        }),
    decreases blocks.len(),
{
    let f = after_blocks(holes, blocks);
    let all = concatenated(blocks);
    if blocks.len() > 0 {
        let short = blocks.drop_last();
        lemma_after_blocks(holes, short);
        let g = after_blocks(holes, short);
        let before = concatenated(short);
        assert(resized(f.contents, f.pos) =~= all) by {
            assert forall|i: int| 0 <= i < all.len() implies resized(f.contents, f.pos)[i] == all[i] by {
                if i < before.len() {
                    assert(resized(g.contents, g.pos)[i] == before[i]);
                } else {
                    assert(all[i] == blocks.last()[i - before.len()]);
                }
            }
        }
        if !holes {
            assert(resized(g.contents, g.pos) =~= g.contents);
        }
    } else {
        assert(resized(f.contents, f.pos) =~= all);
    }
}

/// However a file is cut into blocks, and whether or not blocks of zeros are
/// left out, the copy holds the bytes of the source.
pub proof fn transfer_is_faithful(holes: bool, blocks: Seq<Seq<u8>>)
    ensures
        ({
            let f = after_blocks(holes, blocks);
            let all = concatenated(blocks);
            if holes {
                resized(f.contents, all.len() as int) == all
            } else {
                f.contents == all
            }
        }),
{
    lemma_after_blocks(holes, blocks);
}

// ---------------------------------------------------------------------------
// Checksums
// ---------------------------------------------------------------------------

/// A checksum in the making.
#[verifier::external_type_specification]
#[verifier::external_body]
pub struct ExXxh3(xxhash_rust::xxh3::Xxh3);

/// The bytes that a checksum in the making has taken in, in order.
pub uninterp spec fn absorbed(h: xxhash_rust::xxh3::Xxh3) -> Seq<u8>;

/// What `xxhash_rust::xxh3::Xxh3::digest` makes of bytes.
pub uninterp spec fn xxh3_of(bytes: Seq<u8>) -> u64;

/// `xxhash_rust::xxh3::Xxh3::new` has taken in nothing.
pub assume_specification[ xxhash_rust::xxh3::Xxh3::new ]() -> (h: xxhash_rust::xxh3::Xxh3)
    ensures
        absorbed(h) == Seq::<u8>::empty(),
;

/// `xxhash_rust::xxh3::Xxh3::update` takes in more bytes, behind the others.
pub assume_specification[ xxhash_rust::xxh3::Xxh3::update ](
    h: &mut xxhash_rust::xxh3::Xxh3,
    input: &[u8],
)
    ensures
        absorbed(*final(h)) == absorbed(*old(h)) + input@,
;

/// `xxhash_rust::xxh3::Xxh3::digest` depends on the bytes taken in alone, not
/// on how they were cut.
pub assume_specification[ xxhash_rust::xxh3::Xxh3::digest ](h: &xxhash_rust::xxh3::Xxh3) -> (r: u64)
    ensures
        r == xxh3_of(absorbed(*h)),
;

/// The checksum of a file that is read block by block.
pub struct Checksum {
    state: xxhash_rust::xxh3::Xxh3,
}

impl View for Checksum {
    type V = Seq<u8>;

    closed spec fn view(&self) -> Seq<u8> {
        absorbed(self.state)
    }
}

impl Checksum {
    /// Nothing read so far.
    pub fn new() -> (r: Checksum)
        ensures
            r@ == Seq::<u8>::empty(),
    {
        Checksum { state: xxhash_rust::xxh3::Xxh3::new() }
    }

    /// Takes in what the read that came to `done` left in `block`, and says
    /// what follows.
    pub fn took(&mut self, done: ReadDone, block: &[u8]) -> (r: Next)
        requires
            done matches ReadDone::Got(n) ==> n == block@.len(),
        ensures
            final(self)@ == match done {
                ReadDone::Got(_) => old(self)@ + block@,
                _ => old(self)@,
            },
            r == match done {
                ReadDone::Failed => Next::Stop,
                ReadDone::Interrupted => Next::ReadAgain,
                ReadDone::Got(n) => if n == 0 {
                    Next::Finish
                } else {
                    Next::ReadAgain
                },
            },
    {
        match done {
            ReadDone::Failed => Next::Stop,
            ReadDone::Interrupted => Next::ReadAgain,
            ReadDone::Got(n) => {
                if n == 0 {
                    assert(self@ + block@ =~= self@);
                    return Next::Finish;
                }
                self.state.update(block);
                Next::ReadAgain
            },
        }
    }

    /// The checksum of what was read.
    pub fn value(&self) -> (r: u64)
        ensures
            r == xxh3_of(self@),
    {
        self.state.digest()
    }
}

/// Whether a copy is the same as its source, as far as checksums tell: the
/// error says that it is not.
pub fn verify_identical(source: u64, copy: u64) -> (r: Result<(), String>)
    ensures
        match r {
            Ok(_) => source == copy,
            Err(m) => source != copy && m@
                == "vérification échouée : la copie diffère de la source"@,
        },
{
    if source != copy {
        return Err("vérification échouée : la copie diffère de la source".to_owned());
    }
    Ok(())
}

// ---------------------------------------------------------------------------
// A limited speed
// ---------------------------------------------------------------------------

/// A limit on the speed, shared by all workers.
#[derive(Debug, Clone, Copy, PartialEq, Eq, Structural)]
pub struct Throttle {
    /// How many bytes may go by in a second; at least one.
    pub rate: u64,
    /// How many have gone by.
    pub bytes: u64,
}

/// How long `total` bytes take at `rate` bytes a second, in nanoseconds: the
/// seconds are a quotient of doubles, and the nearest nanosecond counts.
pub open spec fn time_for(total: nat, rate: nat) -> nat {
    let (n, e) = double_quotient(to_double(total), to_double(rate));
    nearest(n * 1_000_000_000, pow2(e))
}

/// How long `total` bytes take at `rate` bytes a second.
fn due_time(total: u64, rate: u64) -> (r: u128)
    requires
        rate >= 1,
    ensures
        r == time_for(total as nat, rate as nat),
{
    let a: u128 = round_to_double(total as u128);
    let b: u128 = round_to_double(rate as u128);
    let floor: u128 = b * 0x10_0000_0000_0000;
    let mut x: u128 = a;
    let mut p: u128 = 1;
    let ghost mut e: nat = 0;
    proof {
        lemma2_to64();
    }
    while x != 0 && x < floor
        invariant
            0 < b <= 0x2_0000_0000_0000_0000,
            a <= 0x2_0000_0000_0000_0000,
            floor == b * 0x10_0000_0000_0000,
            p == pow2(e),
            p >= 1,
            x == a * p,
            p <= x || e == 0,
            e == 0 || x < 2 * floor,
            doublings(a as nat, floor as nat) == e + doublings(x as nat, floor as nat),
        decreases 2 * floor - x,
    {
        proof {
            lemma_pow2_unfold(e + 1);
            assert(a * (2 * p) == 2 * (a * p)) by (nonlinear_arith);
            assert(p <= x) by (nonlinear_arith)
                requires
                    x == a * p,
                    x != 0,
            ;
            e = e + 1;
        }
        x = x * 2;
        p = p * 2;
    }
    let whole: u128 = x / b;
    proof {
        if e == 0 {
            assert(x / b <= x) by (nonlinear_arith)
                requires
                    b > 0,
            ;
        } else {
            assert(x / b <= 0x20_0000_0000_0000) by (nonlinear_arith)
                requires
                    x < 2 * (b * 0x10_0000_0000_0000),
                    b > 0,
            ;
        }
    }
    let mut q: u128 = whole;
    let mut w: u128 = 1;
    let ghost mut h: nat = 0;
    while q >= 0x20_0000_0000_0000
        invariant
            whole <= 0x2_0000_0000_0000_0000,
            q * w <= whole,
            w == pow2(h),
            1 <= w <= 0x2000,
            halvings(whole as nat) == h + halvings(q as nat),
        decreases q,
    {
        proof {
            lemma_pow2_unfold(h + 1);
            assert(w <= 0x1000) by (nonlinear_arith)
                requires
                    q * w <= whole,
                    whole <= 0x2_0000_0000_0000_0000,
                    q >= 0x20_0000_0000_0000,
            ;
            assert((q / 2) * (2 * w) <= whole) by (nonlinear_arith)
                requires
                    q * w <= whole,
                    w >= 1,
            ;
            h = h + 1;
        }
        q = q / 2;
        w = w * 2;
    }
    assert(b <= b * w <= 0x2_0000_0000_0000_0000 * 0x2000) by (nonlinear_arith)
        requires
            1 <= w <= 0x2000,
            0 < b <= 0x2_0000_0000_0000_0000,
    ;
    let m: u128 = nearest_u128(x, b * w);
    proof {
        lemma_div_is_ordered_by_denominator(x as int, b as int, b * w);
        assert(m <= whole + 1);
        assert(m * w <= 0x2_0000_0000_0000_0001 * 0x2000) by (nonlinear_arith)
            requires
                m <= 0x2_0000_0000_0000_0001,
                1 <= w <= 0x2000,
        ;
        assert(a as nat * pow2(e) == x as nat);
    }
    nearest_u128(m * w * 1_000_000_000, p)
}

/// A pause that is not worth taking: a millisecond.
pub const SHORTEST_PAUSE: u128 = 1000000;

impl Throttle {
    /// The limit is one that can be kept.
    pub open spec fn wf(self) -> bool {
        self.rate >= 1
    }

    /// `n` more bytes can be counted, and the seconds that all of them take can
    /// be told.
    pub open spec fn has_room_for(self, n: u64) -> bool {
        &&& self.bytes + n <= u64::MAX
        &&& self.rate > 1 || to_double((self.bytes + n) as nat) <= u64::MAX
    }

    /// Whether `n` more bytes can be counted.
    pub fn has_room(&self, n: u64) -> (r: bool)
        ensures
            r == self.has_room_for(n),
    {
        if self.bytes > u64::MAX - n {
            return false;
        }
        self.rate > 1 || round_to_double((self.bytes + n) as u128) <= u64::MAX as u128
    }

    /// At most `rate` bytes a second; at least one.
    pub fn new(rate: u64) -> (r: Throttle)
        ensures
            r.wf(),
            r == (Throttle {
                rate: if rate < 1 {
                    1
                } else {
                    rate
                },
                bytes: 0,
            }),
    {
        Throttle {
            rate: if rate < 1 {
                1
            } else {
                rate
            },
            bytes: 0,
        }
    }

    /// Counts `n` more bytes, `elapsed` nanoseconds after the start, and says
    /// how long to pause, in nanoseconds.
    pub fn add(&mut self, n: u64, elapsed: u128) -> (r: Option<u128>)
        requires
            old(self).wf(),
            old(self).has_room_for(n),
        ensures
            final(self).wf(),
            final(self).rate == old(self).rate,
            final(self).bytes == old(self).bytes + n,
            ({
                let due = time_for(final(self).bytes as nat, final(self).rate as nat);
                match r {
                    Some(pause) => due > elapsed + SHORTEST_PAUSE && pause == due - elapsed,
                    None => due <= elapsed + SHORTEST_PAUSE,
                }
            }),
            r matches Some(pause) ==> pause > 1_000_000,
            r is None ==> time_for(final(self).bytes as nat, final(self).rate as nat) <= elapsed
                + 1_000_000,
    {
        self.bytes = self.bytes + n;
        let due: u128 = due_time(self.bytes, self.rate);
        if due > elapsed && due - elapsed > SHORTEST_PAUSE {
            Some(due - elapsed)
        } else {
            None
        }
    }
}

/// Whoever takes the pauses is never ahead of the time that the bytes take by
/// more than a millisecond.
pub proof fn pauses_keep_the_limit(total: nat, rate: nat, elapsed: nat, pause: Option<u128>)
    requires
        match pause {
            Some(p) => p == time_for(total, rate) - elapsed,
            None => time_for(total, rate) <= elapsed + SHORTEST_PAUSE,
        },
    ensures
        time_for(total, rate) <= elapsed + 1_000_000 + match pause {
            Some(p) => p as int,
            None => 0,
        },
{
}

proof fn lemma_nearest(a: nat, b: nat)
    requires
        b > 0,
    ensures
        2 * a <= 2 * (nearest(a, b) * b) + b,
        2 * (nearest(a, b) * b) <= 2 * a + b,
{
    let q = a / b;
    let r = a % b;
    lemma_fundamental_div_mod(a as int, b as int);
    assert(nearest(a, b) * b == q * b || nearest(a, b) * b == q * b + b) by (nonlinear_arith)
        requires
            nearest(a, b) == q || nearest(a, b) == q + 1,
    ;
    assert(b * q == q * b) by (nonlinear_arith);
    lemma_mod_bound(a as int, b as int);
    assert((q + 1) * b == q * b + b) by (nonlinear_arith);
}

proof fn lemma_small_is_exact(n: nat)
    requires
        n < 0x20_0000_0000_0000,
    ensures
        to_double(n) == n,
{
    lemma2_to64();
    assert(pow2(halvings(n)) == 1);
    assert(n / 1 == n && n % 1 == 0);
    assert(nearest(n, 1) == n);
    assert(n * 1 == n);
}

proof fn lemma_doublings(a: nat, floor: nat)
    requires
        a > 0,
    ensures
        ({
            let e = doublings(a, floor);
            &&& a * pow2(e) >= floor
            &&& e == 0 || a * pow2(e) < 2 * floor
        }),
    decreases
            if a < floor {
                floor - a
            } else {
                0
            },
{
    lemma2_to64();
    if a < floor {
        let d = doublings(2 * a, floor);
        lemma_doublings(2 * a, floor);
        lemma_pow2_unfold(d + 1);
        let k = pow2(d);
        assert(a * (2 * k) == (2 * a) * k) by (nonlinear_arith);
        assert(doublings(a, floor) == d + 1);
        if d == 0 {
            assert((2 * a) * k == 2 * a) by (nonlinear_arith)
                requires
                    k == 1,
            ;
        }
    } else {
        assert(a * 1 == a);
    }
}

/// The time that bytes take is right to the nanosecond, as long as it is less
/// than four million seconds and the numbers are doubles: at `rate` bytes a
/// second no more go by in it, and in one nanosecond less fewer do.
pub proof fn times_are_right_to_the_nanosecond(total: nat, rate: nat)
    requires
        0 < total < 0x20_0000_0000_0000,
        0 < rate < 0x20_0000_0000_0000,
        total <= 4_000_000 * rate,
    ensures
        total * 1_000_000_000 <= (time_for(total, rate) + 1) * rate,
        (time_for(total, rate) - 1) * rate <= total * 1_000_000_000,
{
    lemma_small_is_exact(total);
    lemma_small_is_exact(rate);
    let floor = rate * 0x10_0000_0000_0000;
    let e = doublings(total, floor);
    let p = pow2(e);
    let x = total * p;
    lemma2_to64();
    lemma_doublings(total, floor);
    assert(e > 0) by {
        assert(total < floor);
    }
    assert(x / rate < 0x20_0000_0000_0000) by (nonlinear_arith)
        requires
            x < 2 * floor,
            floor == rate * 0x10_0000_0000_0000,
            rate > 0,
    ;
    assert(p >= 1_000_000_000) by (nonlinear_arith)
        requires
            total * p >= rate * 0x10_0000_0000_0000,
            total <= 4_000_000 * rate,
            rate > 0,
    ;
    assert(rate * 1 == rate);
    let n = nearest(x, rate);
    assert(n * 1 == n);
    assert(double_quotient(total, rate) == (n, e));
    let due = nearest(n * 1_000_000_000, p);
    lemma_nearest(x, rate);
    lemma_nearest(n * 1_000_000_000, p);
    assert(due == time_for(total, rate));
    let g = 1_000_000_000nat;
    assert(total * g <= (due + 1) * rate) by (nonlinear_arith)
        requires
            2 * (total * p) <= 2 * (n * rate) + rate,
            2 * (n * g) <= 2 * (due * p) + p,
            p >= g,
            g == 1_000_000_000,
            rate > 0,
    {
        let (t, r, d) = (total as int, rate as int, due as int);
        assert(2 * ((t * p) * g) <= 2 * ((n * r) * g) + r * g);
        assert(2 * ((n * g) * r) <= 2 * ((d * p) * r) + p * r);
        assert((n * r) * g == (n * g) * r);
        assert(r * g <= r * p);
        assert(2 * ((t * g) * p) <= 2 * (((d + 1) * r) * p));
    }
    assert((due - 1) * rate <= total * g) by (nonlinear_arith)
        requires
            2 * (n * rate) <= 2 * (total * p) + rate,
            2 * (due * p) <= 2 * (n * g) + p,
            p >= g,
            g == 1_000_000_000,
            rate > 0,
    {
        let (t, r, d) = (total as int, rate as int, due as int);
        assert(2 * ((n * r) * g) <= 2 * ((t * p) * g) + r * g);
        assert(2 * ((d * p) * r) <= 2 * ((n * g) * r) + p * r);
        assert((n * r) * g == (n * g) * r);
        assert(r * g <= r * p);
        assert(2 * (((d - 1) * r) * p) <= 2 * ((t * g) * p));
    }
}

} // verus!
