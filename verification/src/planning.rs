//! Level planning: derives the number of resolution levels of the pyramid
//! from the governing base size and the tile size, and describes how the
//! working raster dimensions shrink from level to level.

use vstd::prelude::*;
use vstd::arithmetic::power2::{
    pow2, lemma_pow2_pos, lemma_pow2_unfold, lemma_pow2_strictly_increases, lemma2_to64,
};
use vstd::arithmetic::div_mod::lemma_div_denominator;
use crate::TilingError;

verus! {

/// The dimension after `steps` integer halvings, the way the pyramid driver
/// shrinks the working raster one level transition at a time.
pub open spec fn halved(base: nat, steps: nat) -> nat
    decreases steps,
{
    if steps == 0 {
        base
    } else {
        halved(base, (steps - 1) as nat) / 2
    }
}

/// Repeated integer halving is one floor division by the matching power of
/// two: the dimensions the driver accumulates level by level agree with
/// `floor(base / 2^steps)` computed in one stroke, for every base size.
pub proof fn lemma_halved_is_div_pow2(base: nat, steps: nat)
    ensures
        halved(base, steps) == base / pow2(steps),
    decreases steps,
{
    lemma2_to64();
    if steps == 0 {
        assert(base / 1 == base);
    } else {
        let prev = (steps - 1) as nat;
        lemma_halved_is_div_pow2(base, prev);
        lemma_pow2_pos(prev);
        lemma_div_denominator(base as int, pow2(prev) as int, 2);
        lemma_pow2_unfold(steps);
        assert(pow2(prev) as int * 2 == pow2(steps) as int);
    }
}

/// The smallest `k` with `ts * 2^k >= base`: how many doublings of the tile
/// size it takes to reach the base size.
pub open spec fn ceil_log2_ratio(base: nat, ts: nat) -> nat
    recommends
        1 <= ts,
    decreases base,
{
    if ts == 0 || ts >= base {
        0
    } else {
        1 + ceil_log2_ratio((base + 1) / 2, ts)
    }
}

/// `ceil_log2_ratio` really is the least exponent that lifts `ts` to `base`.
pub proof fn lemma_ceil_log2_ratio_bounds(base: nat, ts: nat)
    requires
        1 <= ts,
    ensures
        ts * pow2(ceil_log2_ratio(base, ts)) >= base,
        ceil_log2_ratio(base, ts) >= 1 ==> ts * pow2((ceil_log2_ratio(base, ts) - 1) as nat)
            < base,
    decreases base,
{
    lemma2_to64();
    if ts >= base {
        assert(ts * pow2(0) == ts) by (nonlinear_arith)
            requires
                pow2(0) == 1,
        ;
    } else {
        let c = (base + 1) / 2;
        let k2 = ceil_log2_ratio(c, ts);
        lemma_ceil_log2_ratio_bounds(c, ts);
        lemma_pow2_unfold(k2 + 1);
        assert(ts * pow2(k2 + 1) == 2 * (ts * pow2(k2))) by (nonlinear_arith)
            requires
                pow2(k2 + 1) == 2 * pow2(k2),
        ;
        assert(2 * c >= base);
        if k2 == 0 {
            assert(ts * pow2(0) == ts) by (nonlinear_arith)
                requires
                    pow2(0) == 1,
            ;
        } else {
            let prev = (k2 - 1) as nat;
            lemma_pow2_unfold(k2);
            assert(ts * pow2(k2) == 2 * (ts * pow2(prev))) by (nonlinear_arith)
                requires
                    pow2(k2) == 2 * pow2(prev),
            ;
            assert(2 * c <= base + 1);
        }
    }
}

/// Any exponent that satisfies the two bounds is `ceil_log2_ratio` itself.
pub proof fn lemma_ceil_log2_ratio_unique(base: nat, ts: nat, k: nat)
    requires
        1 <= ts,
        ts * pow2(k) >= base,
        k >= 1 ==> ts * pow2((k - 1) as nat) < base,
    ensures
        k == ceil_log2_ratio(base, ts),
{
    let m = ceil_log2_ratio(base, ts);
    lemma_ceil_log2_ratio_bounds(base, ts);
    if k < m {
        let e = (m - 1) as nat;
        if k < e {
            lemma_pow2_strictly_increases(k, e);
        }
        assert(ts * pow2(k) <= ts * pow2(e)) by (nonlinear_arith)
            requires
                pow2(k) <= pow2(e),
                ts >= 0,
        ;
        assert(false);
    } else if m < k {
        let e = (k - 1) as nat;
        if m < e {
            lemma_pow2_strictly_increases(m, e);
        }
        assert(ts * pow2(m) <= ts * pow2(e)) by (nonlinear_arith)
            requires
                pow2(m) <= pow2(e),
                ts >= 0,
        ;
        assert(false);
    }
}

/// `base / 2^e`, rounded to the nearest integer with halves rounded up —
/// the size the second-highest level of a `k`-level pyramid would have.
pub open spec fn round_div_pow2(base: nat, e: nat) -> nat {
    (base + pow2(e) / 2) / pow2(e)
}

/// The number of pyramid levels for a governing base size and a (clamped)
/// tile size: `ceil(log2(base / ts)) + 1`, with one level dropped when the
/// second-highest level would already have the tile size's resolution.
pub open spec fn level_count(base: nat, ts: nat) -> nat
    recommends
        1 <= ts < base,
{
    let k = ceil_log2_ratio(base, ts);
    if round_div_pow2(base, (k - 1) as nat) == ts {
        k
    } else {
        k + 1
    }
}

/// With a tile size strictly below the base size the plan always keeps the
/// full-resolution level and at least one coarser one.
pub proof fn lemma_level_count_at_least_two(base: nat, ts: nat)
    requires
        1 <= ts < base,
    ensures
        level_count(base, ts) >= 2,
{
    lemma2_to64();
    let k = ceil_log2_ratio(base, ts);
    if k == 1 {
        assert(round_div_pow2(base, 0) == base);
    }
}

/// `2^e` as a machine integer.
fn pow2_u64(e: u32) -> (r: u64)
    requires
        e <= 32,
    ensures
        r as nat == pow2(e as nat),
{
    proof {
        lemma2_to64();
    }
    let mut r: u64 = 1;
    let mut i: u32 = 0;
    while i < e
        invariant
            i <= e <= 32,
            r as nat == pow2(i as nat),
        decreases e - i,
    {
        proof {
            lemma2_to64();
            lemma_pow2_strictly_increases(i as nat, 32);
            lemma_pow2_unfold(i as nat + 1);
        }
        r = r * 2;
        i = i + 1;
    }
    r
}

/// The total level count for a governing base size and a clamped tile size,
/// computed without floating point: the exponent search walks doublings of
/// the tile size, and the edge-case check compares the rounded size of the
/// second-highest level against the tile size.
pub fn compute_level_count(base: u32, tile_size: u32) -> (levels: u32)
    requires
        1 <= tile_size < base,
    ensures
        levels as nat == level_count(base as nat, tile_size as nat),
        2 <= levels <= 33,
{
    proof {
        lemma2_to64();
        assert((tile_size as nat) * 1 == tile_size as nat) by (nonlinear_arith);
    }
    let mut k: u32 = 0;
    let mut cap: u64 = tile_size as u64;
    while cap < base as u64
        invariant
            1 <= tile_size < base,
            cap as nat == (tile_size as nat) * pow2(k as nat),
            pow2(k as nat) <= cap as nat,
            cap as nat <= 2 * (base as nat),
            k >= 1 ==> (tile_size as nat) * pow2((k - 1) as nat) < base as nat,
        decreases 2 * (base as int) - cap as int,
    {
        proof {
            lemma2_to64();
            if k >= 32 {
                if (k as nat) > 32 {
                    lemma_pow2_strictly_increases(32, k as nat);
                }
                assert(false);
            }
            lemma_pow2_unfold(k as nat + 1);
            assert((tile_size as nat) * pow2(k as nat + 1) == 2 * ((tile_size as nat) * pow2(
                k as nat,
            ))) by (nonlinear_arith)
                requires
                    pow2(k as nat + 1) == 2 * pow2(k as nat),
            ;
        }
        cap = cap * 2;
        k = k + 1;
    }
    proof {
        lemma2_to64();
        lemma_ceil_log2_ratio_unique(base as nat, tile_size as nat, k as nat);
        lemma_level_count_at_least_two(base as nat, tile_size as nat);
        if k >= 33 {
            let e = (k - 1) as nat;
            if e > 32 {
                lemma_pow2_strictly_increases(32, e);
            }
            assert((tile_size as nat) * pow2(e) >= pow2(e)) by (nonlinear_arith)
                requires
                    tile_size >= 1,
            ;
            assert(false);
        }
    }
    let e: u32 = k - 1;
    let p: u64 = pow2_u64(e);
    proof {
        lemma_pow2_pos(e as nat);
        if (e as nat) < 32 {
            lemma_pow2_strictly_increases(e as nat, 32);
        }
    }
    let rounded: u64 = (base as u64 + p / 2) / p;
    if rounded == tile_size as u64 {
        k
    } else {
        k + 1
    }
}

/// The governing base size of an image: the smaller of its two dimensions,
/// so that both axes share one level count.
pub open spec fn spec_base_size(w: nat, h: nat) -> nat {
    if w <= h {
        w
    } else {
        h
    }
}

/// The effective tile size: the requested one, clamped down to the governing
/// base size so a tile never outgrows the image.
pub open spec fn spec_clamped_tile(req: nat, w: nat, h: nat) -> nat {
    if req <= spec_base_size(w, h) {
        req
    } else {
        spec_base_size(w, h)
    }
}

/// A width/height/tile-size combination admits a plan exactly when the
/// clamped tile size is positive and strictly below the governing base size;
/// otherwise the level-count derivation would be degenerate.
pub open spec fn plan_admissible(w: nat, h: nat, req: nat) -> bool {
    1 <= spec_clamped_tile(req, w, h) < spec_base_size(w, h)
}

/// The immutable plan of a pyramid: base dimensions, effective tile size,
/// and total level count.
#[derive(Debug, Clone, Copy, PartialEq, Eq, Structural)]
pub struct PyramidPlan {
    pub tile_size: u32,
    pub base_width: u32,
    pub base_height: u32,
    pub level_count: u32,
}

impl PyramidPlan {
    /// The governing base size of the planned image.
    pub open spec fn base_size(self) -> nat {
        spec_base_size(self.base_width as nat, self.base_height as nat)
    }

    /// The plan's internal consistency: the tile size fits the image and the
    /// level count is the one the planning formula assigns.
    pub open spec fn wf(self) -> bool {
        &&& 1 <= self.tile_size
        &&& (self.tile_size as nat) < self.base_size()
        &&& self.level_count as nat == level_count(self.base_size(), self.tile_size as nat)
        &&& 2 <= self.level_count <= 33
    }
}

/// Plans the pyramid for an image of the given dimensions and a requested
/// tile size. Returns the plan exactly on admissible combinations, and a
/// planning error on degenerate ones (base size not above the clamped tile
/// size), for which no usable level count exists.
pub fn plan(base_width: u32, base_height: u32, requested_tile_size: u32) -> (r: Result<
    PyramidPlan,
    TilingError,
>)
    ensures
        r is Ok <==> plan_admissible(
            base_width as nat,
            base_height as nat,
            requested_tile_size as nat,
        ),
        r matches Ok(p) ==> {
            &&& p.base_width == base_width
            &&& p.base_height == base_height
            &&& p.tile_size as nat == spec_clamped_tile(
                requested_tile_size as nat,
                base_width as nat,
                base_height as nat,
            )
            &&& p.wf()
        },
        r matches Err(e) ==> e is PlanningError,
{
    let base = if base_width <= base_height {
        base_width
    } else {
        base_height
    };
    let tile_size = if requested_tile_size <= base {
        requested_tile_size
    } else {
        base
    };
    if tile_size == 0 || tile_size >= base {
        return Err(
            TilingError::PlanningError(
                String::from_str("base size does not exceed the tile size: no level count"),
            ),
        );
    }
    let levels = compute_level_count(base, tile_size);
    Ok(
        PyramidPlan {
            tile_size,
            base_width,
            base_height,
            level_count: levels,
        },
    )
}

} // verus!
