//! Slots, and the rule that says which slots may be justified.
use vstd::prelude::*;

verus! {

/// A slot number: a count of fixed-length time units since genesis.
#[derive(Clone, Copy, Debug, PartialEq, Eq, Structural, PartialOrd, Ord, Default)]
pub struct Slot(pub u64);

/// `d` is the square of a natural number.
pub open spec fn is_square(d: nat) -> bool {
    exists|n: nat| #[trigger] (n * n) == d
}

/// `d` is the product of two consecutive natural numbers.
pub open spec fn is_pronic(d: nat) -> bool {
    exists|n: nat| #[trigger] (n * (n + 1)) == d
}

/// A slot at distance `d` after the finalized slot may be justified when `d`
/// is at most 5, a square, or pronic.
pub open spec fn justifiable_distance(d: nat) -> bool {
    d <= 5 || is_square(d) || is_pronic(d)
}

/// The slot `candidate` may be justified when `finalized` is the latest
/// finalized slot. No slot before the finalized one may.
pub open spec fn justifiable_after(candidate: u64, finalized: u64) -> bool {
    candidate >= finalized && justifiable_distance((candidate - finalized) as nat)
}

/// `r` is the integer square root of `d`.
pub open spec fn is_floor_sqrt(r: nat, d: nat) -> bool {
    r * r <= d < (r + 1) * (r + 1)
}

/// Greater numbers have greater squares.
proof fn lemma_square_monotonic(a: nat, b: nat)
    ensures
        a <= b ==> a * a <= b * b,
        a < b ==> (a + 1) * (a + 1) <= b * b,
{
    assert(a <= b ==> a * a <= b * b) by (nonlinear_arith);
    assert(a < b ==> (a + 1) * (a + 1) <= b * b) by (nonlinear_arith);
}

/// No number has two integer square roots.
pub proof fn lemma_floor_sqrt_unique(r: nat, n: nat, d: nat)
    requires
        is_floor_sqrt(r, d),
        is_floor_sqrt(n, d),
    ensures
        r == n,
{
    lemma_square_monotonic(r, n);
    lemma_square_monotonic(n, r);
}

/// With the integer square root of `d` at hand, one multiplication decides
/// whether `d` is a square, and one whether it is pronic.
pub proof fn lemma_sqrt_decides(r: nat, d: nat)
    requires
        is_floor_sqrt(r, d),
    ensures
        is_square(d) == (r * r == d),
        is_pronic(d) == (r * (r + 1) == d),
{
    if is_square(d) {
        let n = choose|n: nat| #[trigger] (n * n) == d;
        assert(is_floor_sqrt(n, d)) by (nonlinear_arith)
            requires
                n * n == d,
        ;
        lemma_floor_sqrt_unique(r, n, d);
    }
    if is_pronic(d) {
        let n = choose|n: nat| #[trigger] (n * (n + 1)) == d;
        assert(is_floor_sqrt(n, d)) by (nonlinear_arith)
            requires
                n * (n + 1) == d,
        ;
        lemma_floor_sqrt_unique(r, n, d);
    }
    if r * r == d {
        assert(is_square(d));
    }
    if r * (r + 1) == d {
        assert(is_pronic(d));
    }
}

/// The integer square root of `d`, found by bisection.
pub fn floor_sqrt(d: u64) -> (r: u64)
    ensures
        is_floor_sqrt(r as nat, d as nat),
        r < 0x1_0000_0000,
{
    let mut lo: u64 = 0;
    let mut hi: u64 = 0x1_0000_0000;
    assert(0x1_0000_0000 * 0x1_0000_0000 > d) by (nonlinear_arith)
        requires
            d <= u64::MAX,
    ;
    while hi - lo > 1
        invariant
            lo < hi <= 0x1_0000_0000,
            lo * lo <= d < hi * hi,
        decreases hi - lo,
    {
        let mid: u64 = lo + (hi - lo) / 2;
        assert(mid * mid <= 0xffff_ffff * 0xffff_ffff) by (nonlinear_arith)
            requires
                mid <= 0xffff_ffff,
        ;
        if mid * mid <= d {
            lo = mid;
        } else {
            hi = mid;
        }
    }
    assert(hi == lo + 1);
    lo
}

impl Slot {
    /// Whether this slot may be justified when `finalized` is the latest
    /// finalized slot: its distance from `finalized` is at most 5, a square
    /// (1, 4, 9, 16, ..) or pronic (2, 6, 12, 20, ..).
    pub fn is_justifiable_after(self, finalized: Slot) -> (r: bool)
        requires
            self.0 >= finalized.0,
        ensures
            r == justifiable_after(self.0, finalized.0),
            r == justifiable_distance((self.0 - finalized.0) as nat),
    {
        let delta: u64 = self.0 - finalized.0;
        if delta <= 5 {
            return true;
        }
        let root: u64 = floor_sqrt(delta);
        proof {
            lemma_sqrt_decides(root as nat, delta as nat);
            assert(root * (root + 1) <= 0xffff_ffff * 0x1_0000_0000) by (nonlinear_arith)
                requires
                    root <= 0xffff_ffff,
            ;
            assert(root * root <= root * (root + 1)) by (nonlinear_arith);
        }
        root * root == delta || root * (root + 1) == delta
    }

    /// As [`Slot::is_justifiable_after`], for any pair of slots: a slot
    /// before the finalized one is never justifiable.
    pub fn is_justifiable_at(self, finalized: Slot) -> (r: bool)
        ensures
            r == justifiable_after(self.0, finalized.0),
    {
        self.0 >= finalized.0 && self.is_justifiable_after(finalized)
    }
}

} // verus!
