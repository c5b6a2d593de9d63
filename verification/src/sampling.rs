//! Random draws for weight initialization and patch dropout.
//!
//! The only sources of randomness are two small wrappers around the `rand`
//! crate; everything built on top of them is verified against contracts
//! that hold for every possible draw.

use vstd::prelude::*;
use rand::Rng;
use crate::fixed::SCALE;

verus! {

/// Relies on rand::Rng::gen_range over `lo..hi` on the thread-local
/// generator: it returns a value of the given range and panics only when
/// the range is empty.  Nothing is promised about which value comes back.
#[verifier::external_body]
fn rand_in_range(lo: i64, hi: i64) -> (r: i64)
    requires
        lo < hi,
    ensures
        lo <= r < hi,
{
    rand::thread_rng().gen_range(lo..hi)
}

/// Relies on rand::seq::index::sample: it draws exactly `amount` distinct
/// indices from `0..length` (without replacement, in unspecified order)
/// and panics only when `amount > length`.
#[verifier::external_body]
pub(crate) fn sample_indices(length: usize, amount: usize) -> (r: Vec<usize>)
    requires
        amount <= length,
    ensures
        r.len() == amount,
        forall|k: int| 0 <= k < r.len() ==> #[trigger] r[k] < length,
        forall|k1: int, k2: int|
            0 <= k1 < r.len() && 0 <= k2 < r.len() && k1 != k2 ==> r[k1] != r[k2],
{
    rand::seq::index::sample(&mut rand::thread_rng(), length, amount).into_vec()
}

/// A draw from the symmetric range `[-limit, limit]`.
pub fn sample_uniform_fx(limit: i64) -> (r: i64)
    requires
        0 <= limit,
        limit < i64::MAX,
    ensures
        -limit <= r <= limit,
{
    if limit == 0 {
        0
    } else {
        rand_in_range(-limit, limit + 1)
    }
}

/// An approximate standard-normal draw: the sum of twelve uniform draws
/// from `[0, 1)` recentred at zero, so the result lies in `[-6, 6]` in
/// real units and has unit variance.
pub fn sample_normal_fx() -> (r: i64)
    ensures
        -6 * SCALE <= r <= 6 * SCALE,
{
    let mut acc: i64 = 0;
    let mut k: usize = 0;
    while k < 12
        invariant
            k <= 12,
            0 <= acc <= k * SCALE,
        decreases 12 - k,
    {
        let u: i64 = rand_in_range(0, SCALE);
        acc = acc + u;
        k = k + 1;
    }
    acc - 6 * SCALE
}

} // verus!
