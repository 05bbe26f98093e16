//! An iteration budget that grows with the zoom factor.
//!
//! The deeper a view reaches into the boundary of the set, the more
//! iterations it takes to tell the orbits apart. This policy adds
//! `floor(ln(sqrt(zoom)))` to a base budget, and nothing where that is
//! negative. The logarithm is read off a table: it is at least `k` exactly when
//! the zoom factor is at least `e^(2k)`.

use vstd::prelude::*;

verus! {

/// The largest boost that a zoom factor can reach.
pub const MAX_BOOST: u32 = 10;

/// The least raw zoom factor that stands for a number of at least `e^(2k)`:
/// `e^(2k) * 2^32`, rounded up. Beyond `k = 10` no zoom factor is that large.
pub open spec fn boost_threshold(k: int) -> int {
    if k == 1 {
        31735754294
    } else if k == 2 {
        234497268815
    } else if k == 3 {
        1732713474317
    } else if k == 4 {
        12803117065095
    } else if k == 5 {
        94602950235158
    } else if k == 6 {
        699026506411924
    } else if k == 7 {
        5165146070517207
    } else if k == 8 {
        38165554074222851
    } else if k == 9 {
        282007420101203879
    } else {
        2083768647442498563
    }
}

/// The boost of a zoom factor: `floor(ln(sqrt(zoom)))`, and zero where that
/// is negative or the zoom factor is not positive. It is the number of the
/// last threshold that the zoom factor has reached.
pub open spec fn zoom_boost(zoom: int) -> nat {
    if zoom < boost_threshold(1) {
        0
    } else if zoom < boost_threshold(2) {
        1
    } else if zoom < boost_threshold(3) {
        2
    } else if zoom < boost_threshold(4) {
        3
    } else if zoom < boost_threshold(5) {
        4
    } else if zoom < boost_threshold(6) {
        5
    } else if zoom < boost_threshold(7) {
        6
    } else if zoom < boost_threshold(8) {
        7
    } else if zoom < boost_threshold(9) {
        8
    } else if zoom < boost_threshold(10) {
        9
    } else {
        10
    }
}

/// The boost is the largest `k` whose threshold the zoom factor has reached:
/// every threshold up to the boost is reached, and none beyond it.
pub proof fn lemma_zoom_boost_is_largest(zoom: int, k: int)
    requires
        1 <= k <= 10,
    ensures
        zoom_boost(zoom) <= 10,
        k <= zoom_boost(zoom) <==> boost_threshold(k) <= zoom,
{
}

/// A larger zoom factor never has a smaller boost.
pub proof fn lemma_zoom_boost_monotone(low: int, high: int)
    requires
        low <= high,
    ensures
        zoom_boost(low) <= zoom_boost(high),
{
}

/// The threshold of a boost.
fn threshold(k: u32) -> (t: i64)
    requires
        1 <= k <= 10,
    ensures
        t == boost_threshold(k as int),
{
    if k == 1 {
        31735754294
    } else if k == 2 {
        234497268815
    } else if k == 3 {
        1732713474317
    } else if k == 4 {
        12803117065095
    } else if k == 5 {
        94602950235158
    } else if k == 6 {
        699026506411924
    } else if k == 7 {
        5165146070517207
    } else if k == 8 {
        38165554074222851
    } else if k == 9 {
        282007420101203879
    } else {
        2083768647442498563
    }
}

/// The boost of a zoom factor.
pub fn boost_for_zoom(zoom: i64) -> (boost: u32)
    ensures
        boost == zoom_boost(zoom as int),
        boost <= MAX_BOOST,
{
    let mut boost: u32 = 0;
    while boost < 10 && threshold(boost + 1) <= zoom
        invariant
            boost <= 10,
            forall|j: int| 1 <= j <= boost ==> #[trigger] boost_threshold(j) <= zoom,
        decreases 10 - boost,
    {
        boost = boost + 1;
    }
    proof {
        if boost > 0 {
            assert(boost_threshold(boost as int) <= zoom);
        }
    }
    boost
}

/// The budget for a view: the base budget plus the boost of the zoom factor.
pub fn zoom_adjusted_budget(base: u32, zoom: i64) -> (budget: u32)
    requires
        base + zoom_boost(zoom as int) <= u32::MAX,
    ensures
        budget == base + zoom_boost(zoom as int),
{
    base + boost_for_zoom(zoom)
}

} // verus!
