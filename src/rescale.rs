//! The tick rule of the narrative section and of note tracks: a tick one
//! past its predecessor's stays one past the predecessor's scaled tick.
use vstd::prelude::*;

verus! {

/// The tick that the event at `k` of a sequence whose unscaled ticks are
/// `ticks` takes when the sequence is scaled by `factor`. The comparison is
/// always with the unscaled tick of the predecessor.
pub open spec fn gap_scaled_tick(ticks: Seq<u32>, k: int, factor: u32) -> int {
    if k > 0 && ticks[k] == ticks[k - 1] + 1 {
        ticks[k - 1] * factor + 1
    } else {
        ticks[k] * factor
    }
}

/// Every tick multiplied by `factor` fits in 32 bits.
pub open spec fn ticks_fit(ticks: Seq<u32>, factor: u32) -> bool {
    forall|k: int| 0 <= k < ticks.len() ==> #[trigger] ticks[k] * factor <= u32::MAX
}

/// Whether `a * b` fits in 32 bits.
pub fn product_fits(a: u32, b: u32) -> (r: bool)
    ensures
        r == (a * b <= u32::MAX),
{
    a.checked_mul(b).is_some()
}

/// Where every tick fits once multiplied, so does every tick the rule gives.
pub proof fn lemma_gap_scaled_tick_fits(ticks: Seq<u32>, k: int, factor: u32)
    requires
        ticks_fit(ticks, factor),
        0 <= k < ticks.len(),
    ensures
        0 <= gap_scaled_tick(ticks, k, factor) <= u32::MAX,
{
    assert(ticks[k] * factor <= u32::MAX);
    if k > 0 && ticks[k] == ticks[k - 1] + 1 {
        let a = ticks[k - 1] as int;
        let f = factor as int;
        assert(ticks[k] * factor == (a + 1) * f);
        assert((a + 1) * f == a * f + f) by (nonlinear_arith);
        assert(a * f >= 0) by (nonlinear_arith)
            requires
                a >= 0,
                f >= 0,
        ;
        if f == 0 {
            assert(a * f == 0) by (nonlinear_arith)
                requires
                    f == 0,
            ;
        }
    } else {
        assert(ticks[k] * factor >= 0) by (nonlinear_arith);
    }
}

} // verus!
