//! The order in which a frame's pixels are rendered: rows from top to
//! bottom, each row from left to right.

use itertools::Itertools;
use vstd::prelude::*;

verus! {

/// Column and row of the `k`-th pixel of a frame `width` pixels wide.
pub open spec fn pixel_at(width: nat, k: nat) -> (nat, nat) {
    (k % width, k / width)
}

/// Relies on `itertools::Itertools::cartesian_product` on two ranges: every
/// pair, the first range's item varying slowest.
#[verifier::external_body]
fn rows_then_columns(height: u32, width: u32) -> (r: Vec<(u32, u32)>)
    requires
        height as nat * width as nat <= usize::MAX,
    ensures
        r@.len() == height as nat * width as nat,
        forall|k: int|
            0 <= k < r@.len() ==> #[trigger] r@[k] == ((k / width as int) as u32, (k
                % width as int) as u32),
{
    (0..height).cartesian_product(0..width).collect()
}

/// The pixels of a `width` by `height` frame as `(column, row)` pairs, in
/// the order in which they are rendered and written.
pub fn pixel_order(width: u32, height: u32) -> (r: Vec<(u32, u32)>)
    requires
        width as nat * height as nat <= usize::MAX,
    ensures
        r@.len() == width as nat * height as nat,
        forall|k: int|
            0 <= k < r@.len() ==> (#[trigger] r@[k].0 as nat, r@[k].1 as nat) == pixel_at(
                width as nat,
                k as nat,
            ),
{
    proof {
        vstd::arithmetic::mul::lemma_mul_is_commutative(width as int, height as int);
    }
    let pairs = rows_then_columns(height, width);
    let mut out: Vec<(u32, u32)> = Vec::new();
    let mut k: usize = 0;
    while k < pairs.len()
        invariant
            k <= pairs@.len(),
            pairs@.len() == width as nat * height as nat,
            out@.len() == k,
            forall|m: int|
                0 <= m < pairs@.len() ==> #[trigger] pairs@[m] == ((m / width as int) as u32, (m
                    % width as int) as u32),
            forall|m: int|
                0 <= m < k ==> (#[trigger] out@[m].0 as nat, out@[m].1 as nat) == pixel_at(
                    width as nat,
                    m as nat,
                ),
        decreases pairs@.len() - k,
    {
        let (row, column) = pairs[k];
        proof {
            assert(width > 0) by (nonlinear_arith)
                requires
                    k < width as nat * height as nat,
            ;
            vstd::arithmetic::div_mod::lemma_multiply_divide_lt(k as int, width as int, height as int);
        }
        out.push((column, row));
        k = k + 1;
    }
    out
}

} // verus!
