//! Index arithmetic for dense 3D grids laid out with the first axis varying
//! fastest: a cell `(ix, iy, iz)` of a grid with extents `rx` and `ry` on the
//! first two axes lives at the flat index `ix + rx * (iy + ry * iz)`.

use vstd::arithmetic::div_mod::{
    lemma_div_denominator,
    lemma_fundamental_div_mod_converse,
};
use vstd::arithmetic::mul::lemma_mul_nonnegative;
use vstd::prelude::*;

verus! {

/// Flat index of the cell `(ix, iy, iz)` in a grid whose first two axes have
/// extents `rx` and `ry`.
pub open spec fn grid_encode(ix: int, iy: int, iz: int, rx: int, ry: int) -> int {
    ix + rx * (iy + ry * iz)
}

/// The flat index of a cell decodes back to the cell's coordinates, is
/// non-negative, and is bounded by the number of cells of the layers up to
/// and including the cell's own.
pub proof fn lemma_grid_decode(ix: int, iy: int, iz: int, rx: int, ry: int)
    requires
        0 <= ix < rx,
        0 <= iy < ry,
        0 <= iz,
    ensures
        grid_encode(ix, iy, iz, rx, ry) % rx == ix,
        (grid_encode(ix, iy, iz, rx, ry) / rx) % ry == iy,
        grid_encode(ix, iy, iz, rx, ry) / (rx * ry) == iz,
        0 <= grid_encode(ix, iy, iz, rx, ry),
        grid_encode(ix, iy, iz, rx, ry) < rx * ry * (iz + 1),
{
    let k = grid_encode(ix, iy, iz, rx, ry);
    assert(k == (iy + ry * iz) * rx + ix) by (nonlinear_arith)
        requires
            k == ix + rx * (iy + ry * iz),
    ;
    assert(0 <= iy + ry * iz) by {
        lemma_mul_nonnegative(ry, iz);
    }
    lemma_fundamental_div_mod_converse(k, rx, iy + ry * iz, ix);
    assert(iy + ry * iz == iz * ry + iy) by (nonlinear_arith);
    lemma_fundamental_div_mod_converse(iy + ry * iz, ry, iz, iy);
    assert(0 <= k) by {
        lemma_mul_nonnegative(rx, iy + ry * iz);
    }
    assert(k / (rx * ry) == iz) by {
        lemma_div_denominator(k, rx, ry);
    }
    assert(k < rx * ry * (iz + 1)) by (nonlinear_arith)
        requires
            0 <= ix < rx,
            0 <= iy < ry,
            0 <= iz,
            k == ix + rx * (iy + ry * iz),
    ;
}

/// Two cells with the same flat index are the same cell.
pub proof fn lemma_grid_encode_injective(
    ix1: int,
    iy1: int,
    iz1: int,
    ix2: int,
    iy2: int,
    iz2: int,
    rx: int,
    ry: int,
)
    requires
        0 <= ix1 < rx,
        0 <= iy1 < ry,
        0 <= iz1,
        0 <= ix2 < rx,
        0 <= iy2 < ry,
        0 <= iz2,
        grid_encode(ix1, iy1, iz1, rx, ry) == grid_encode(ix2, iy2, iz2, rx, ry),
    ensures
        ix1 == ix2,
        iy1 == iy2,
        iz1 == iz2,
{
    lemma_grid_decode(ix1, iy1, iz1, rx, ry);
    lemma_grid_decode(ix2, iy2, iz2, rx, ry);
}

} // verus!
