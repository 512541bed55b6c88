//! Root-mean-square level of a block of samples.

use vstd::prelude::*;

verus! {

/// The square of one sample.
pub open spec fn square(x: i32) -> nat {
    (x as int * x as int) as nat
}

/// The sum of the squares of all samples of a block.
pub open spec fn sum_squares(block: Seq<i32>) -> nat
    decreases block.len(),
{
    if block.len() == 0 {
        0
    } else {
        sum_squares(block.drop_last()) + square(block.last())
    }
}

/// `r` is the square root of `n`, rounded down.
pub open spec fn is_floor_sqrt(r: nat, n: nat) -> bool {
    r * r <= n < (r + 1) * (r + 1)
}

/// The square root of `n`, rounded down.
pub open spec fn floor_sqrt(n: nat) -> nat {
    choose|r: nat| is_floor_sqrt(r, n)
}

/// The mean of the squares of a non-empty block, rounded down.
pub open spec fn mean_square(block: Seq<i32>) -> nat
    recommends
        block.len() > 0,
{
    sum_squares(block) / block.len()
}

/// The root-mean-square level of a non-empty block: the square root of the
/// mean of the squares of its samples, each step rounded down.
pub open spec fn rms_of(block: Seq<i32>) -> nat
    recommends
        block.len() > 0,
{
    floor_sqrt(mean_square(block))
}

/// The magnitude of a sample.
pub open spec fn magnitude(x: i32) -> nat {
    if x < 0 {
        (-(x as int)) as nat
    } else {
        x as nat
    }
}

/// A number has at most one rounded-down square root.
pub proof fn lemma_floor_sqrt_unique(r: nat, n: nat)
    requires
        is_floor_sqrt(r, n),
    ensures
        floor_sqrt(n) == r,
{
    let c = floor_sqrt(n);
    assert(is_floor_sqrt(c, n));
    if c < r {
        assert((c + 1) * (c + 1) <= r * r) by (nonlinear_arith)
            requires
                0 <= c + 1 <= r,
        ;
    } else if c > r {
        assert((r + 1) * (r + 1) <= c * c) by (nonlinear_arith)
            requires
                0 <= r + 1 <= c,
        ;
    }
}

/// The square root of `n`, rounded down.
pub fn isqrt(n: u64) -> (r: u32)
    ensures
        r == floor_sqrt(n as nat),
        is_floor_sqrt(r as nat, n as nat),
{
    let mut lo: u64 = 0;
    let mut hi: u64 = 0x1_0000_0000;
    while hi - lo > 1
        invariant
            lo < hi <= 0x1_0000_0000,
            lo * lo <= n,
            n < hi * hi,
        decreases hi - lo,
    {
        let mid: u64 = lo + (hi - lo) / 2;
        assert(mid * mid <= 0xffff_ffff * 0xffff_ffff) by (nonlinear_arith)
            requires
                0 <= mid <= 0xffff_ffff,
        ;
        if mid * mid <= n {
            lo = mid;
        } else {
            hi = mid;
        }
    }
    proof {
        lemma_floor_sqrt_unique(lo as nat, n as nat);
    }
    lo as u32
}

/// The root-mean-square level of a non-empty block.
pub fn block_rms(block: &[i32]) -> (r: u32)
    requires
        block@.len() > 0,
    ensures
        r == rms_of(block@),
{
    let n: usize = block.len();
    let mut acc: u128 = 0;
    let mut i: usize = 0;
    while i < n
        invariant
            n == block@.len(),
            i <= n,
            acc == sum_squares(block@.take(i as int)),
            acc <= i * 0x4000_0000_0000_0000,
        decreases n - i,
    {
        let x: i64 = block[i] as i64;
        assert(0 <= x * x <= 0x4000_0000_0000_0000) by (nonlinear_arith)
            requires
                -0x8000_0000 <= x <= 0x7fff_ffff,
        ;
        let sq: i64 = x * x;
        proof {
            assert(block@.take(i + 1).drop_last() =~= block@.take(i as int));
            assert(block@.take(i + 1).last() == block@[i as int]);
        }
        acc = acc + sq as u128;
        i = i + 1;
    }
    proof {
        assert(block@.take(n as int) =~= block@);
    }
    let mean: u128 = acc / (n as u128);
    assert(mean <= 0x4000_0000_0000_0000) by (nonlinear_arith)
        requires
            mean == acc / (n as u128),
            n > 0,
            acc <= n * 0x4000_0000_0000_0000,
    ;
    isqrt(mean as u64)
}

/// The squares of a block whose samples all have magnitude `a` sum to
/// `a * a` per sample.
proof fn lemma_sum_squares_uniform(block: Seq<i32>, a: nat)
    requires
        forall|i: int| 0 <= i < block.len() ==> magnitude(#[trigger] block[i]) == a,
    ensures
        sum_squares(block) == block.len() * (a * a),
    decreases block.len(),
{
    if block.len() > 0 {
        let init = block.drop_last();
        assert forall|i: int| 0 <= i < init.len() implies magnitude(#[trigger] init[i]) == a by {
            assert(init[i] == block[i]);
        }
        lemma_sum_squares_uniform(init, a);
        let x = block.last() as int;
        assert(magnitude(block[block.len() - 1]) == a);
        assert(x * x == a * a) by (nonlinear_arith)
            requires
                x == a || x == -a,
        ;
        assert(block.len() * (a * a) == init.len() * (a * a) + a * a) by (nonlinear_arith)
            requires
                block.len() == init.len() + 1,
        ;
    }
}

/// A block whose samples all have the same magnitude `a`, whether of constant
/// sign or alternating, has exactly the level `a`.
pub proof fn lemma_rms_of_uniform_magnitude(block: Seq<i32>, a: nat)
    requires
        block.len() > 0,
        forall|i: int| 0 <= i < block.len() ==> magnitude(#[trigger] block[i]) == a,
    ensures
        rms_of(block) == a,
{
    lemma_sum_squares_uniform(block, a);
    let n = block.len();
    assert((n * (a * a)) / n == a * a) by (nonlinear_arith)
        requires
            n > 0,
    ;
    assert(a * a < (a + 1) * (a + 1)) by (nonlinear_arith);
    lemma_floor_sqrt_unique(a, a * a);
}

} // verus!
