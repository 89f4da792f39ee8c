//! Laplacian-variance sharpness of a luma raster.
//!
//! Only interior samples are scored: the outermost rows and columns, which
//! lack a full 4-neighbourhood, contribute no response. The device kernel
//! follows the same convention, so the GPU and CPU paths agree exactly.
//! Whether border samples should instead be scored with a reduced stencil
//! (only the neighbours that exist, still against `-4 * centre`) is an open
//! question; changing it means changing both paths together.
use vstd::prelude::*;
use vstd::arithmetic::div_mod::lemma_fundamental_div_mod_converse;
use crate::stats::{
    lemma_zero_responses, population_variance_milli, responses_in_range, variance_milli,
};

verus! {

/// A single-channel 8-bit raster, stored row by row.
pub struct Raster {
    pub width: u32,
    pub height: u32,
    pub pixels: Vec<u8>,
}

impl Raster {
    /// The samples fill the raster exactly.
    pub open spec fn wf(&self) -> bool {
        self.pixels@.len() == self.width as int * self.height as int
    }

    /// The raster is small enough for exact scoring (fewer than 2^32 samples).
    pub open spec fn scorable(&self) -> bool {
        self.wf() && self.pixels@.len() < 0x1_0000_0000
    }

    /// Sample at column `x`, row `y`.
    pub open spec fn at(&self, x: int, y: int) -> int {
        self.pixels@[y * self.width + x] as int
    }

    /// Discrete Laplacian at an interior position: the four neighbours minus
    /// four times the centre.
    pub open spec fn laplacian_at(&self, x: int, y: int) -> int {
        self.at(x, y - 1) + self.at(x, y + 1) + self.at(x - 1, y) + self.at(x + 1, y) - 4 * self.at(
            x,
            y,
        )
    }

    /// Whether the raster has an interior (at least 3 by 3).
    pub open spec fn has_interior(&self) -> bool {
        self.width >= 3 && self.height >= 3
    }

    /// Laplacian responses of the interior (the outermost rows and columns
    /// excluded), row by row.
    pub open spec fn responses(&self) -> Seq<i32> {
        if !self.has_interior() {
            Seq::empty()
        } else {
            let iw = self.width - 2;
            let ih = self.height - 2;
            Seq::new(
                (iw * ih) as nat,
                |k: int| self.laplacian_at(1 + k % iw, 1 + k / iw) as i32,
            )
        }
    }

    /// Sharpness in thousandths: the population variance of the interior
    /// Laplacian responses, or 0 when the raster has no interior.
    pub open spec fn sharpness(&self) -> int {
        if !self.has_interior() {
            0
        } else {
            variance_milli(self.responses())
        }
    }

    /// Whether every sample has the same value.
    pub open spec fn is_uniform(&self) -> bool {
        forall|i: int, j: int|
            0 <= i < self.pixels@.len() && 0 <= j < self.pixels@.len() ==> self.pixels@[i]
                == self.pixels@[j]
    }
}

proof fn lemma_laplacian_in_range(r: &Raster, x: int, y: int)
    requires
        r.wf(),
        1 <= x < r.width - 1,
        1 <= y < r.height - 1,
    ensures
        -1020 <= r.laplacian_at(x, y) <= 1020,
        0 <= (y - 1) * r.width + x,
        (y + 1) * r.width + x < r.pixels@.len(),
        y * r.width + x == (y - 1) * r.width + x + r.width,
        (y + 1) * r.width + x == y * r.width + x + r.width,
{
    assert(0 <= (y - 1) * r.width + x) by (nonlinear_arith)
        requires
            1 <= y,
            0 <= x,
    ;
    assert((y + 1) * r.width + x < r.width * r.height) by (nonlinear_arith)
        requires
            y + 1 < r.height,
            x < r.width,
    ;
    assert(y * r.width + x == (y - 1) * r.width + x + r.width) by (nonlinear_arith);
    assert((y + 1) * r.width + x == y * r.width + x + r.width) by (nonlinear_arith);
}

/// Laplacian responses of the interior, row by row.
pub fn laplacian_responses(raster: &Raster) -> (out: Vec<i32>)
    requires
        raster.scorable(),
        raster.has_interior(),
    ensures
        out@ == raster.responses(),
{
    let w = raster.width as usize;
    let h = raster.height as usize;
    let ghost iw = w - 2;
    let ghost ih = h - 2;
    let ghost want = raster.responses();
    let mut out: Vec<i32> = Vec::new();
    let mut y: usize = 1;
    while y < h - 1
        invariant
            raster.scorable(),
            w == raster.width,
            h == raster.height,
            w >= 3,
            h >= 3,
            iw == w - 2,
            ih == h - 2,
            want == raster.responses(),
            want.len() == iw * ih,
            1 <= y <= h - 1,
            out@.len() == (y - 1) * iw,
            forall|k: int| 0 <= k < out@.len() ==> out@[k] == want[k],
        decreases h - 1 - y,
    {
        let mut x: usize = 1;
        while x < w - 1
            invariant
                raster.scorable(),
                w == raster.width,
                h == raster.height,
                w >= 3,
                h >= 3,
                iw == w - 2,
                ih == h - 2,
                want == raster.responses(),
                want.len() == iw * ih,
                1 <= y < h - 1,
                1 <= x <= w - 1,
                out@.len() == (y - 1) * iw + (x - 1),
                forall|k: int| 0 <= k < out@.len() ==> out@[k] == want[k],
            decreases w - 1 - x,
        {
            proof {
                lemma_laplacian_in_range(raster, x as int, y as int);
                let k = (y - 1) * iw + (x - 1);
                lemma_fundamental_div_mod_converse(k, iw, y - 1, x - 1);
                assert(k < iw * ih) by (nonlinear_arith)
                    requires
                        k == (y - 1) * iw + (x - 1),
                        x - 1 < iw,
                        y - 1 < ih,
                ;
            }
            let row = y * w;
            let center = raster.pixels[row + x] as i32;
            let top = raster.pixels[row - w + x] as i32;
            let bottom = raster.pixels[row + w + x] as i32;
            let left = raster.pixels[row + x - 1] as i32;
            let right = raster.pixels[row + x + 1] as i32;
            let lap = top + bottom + left + right - 4 * center;
            out.push(lap);
            x = x + 1;
        }
        proof {
            assert((y - 1) * iw + (w - 2) == y * iw) by (nonlinear_arith)
                requires
                    iw == w - 2,
            ;
        }
        y = y + 1;
    }
    proof {
        assert(out@.len() == want.len()) by (nonlinear_arith)
            requires
                out@.len() == (y - 1) * iw,
                y == h - 1,
                ih == h - 2,
                want.len() == iw * ih,
        ;
        assert(out@ =~= want);
    }
    out
}

pub proof fn lemma_responses_in_range(raster: &Raster)
    requires
        raster.wf(),
    ensures
        responses_in_range(raster.responses()),
{
    if raster.has_interior() {
        let iw = raster.width - 2;
        let ih = raster.height - 2;
        assert forall|k: int| 0 <= k < raster.responses().len() implies -1020
            <= #[trigger] raster.responses()[k] <= 1020 by {
            assert(0 <= k % iw < iw && 0 <= k / iw) by (nonlinear_arith)
                requires
                    0 <= k,
                    iw > 0,
            ;
            assert(k / iw < ih) by (nonlinear_arith)
                requires
                    0 <= k < iw * ih,
                    iw > 0,
            ;
            lemma_laplacian_in_range(raster, 1 + k % iw, 1 + k / iw);
        }
    }
}

/// Sharpness of a raster: the population variance, in thousandths, of the
/// Laplacian responses of its interior; 0 for a raster narrower or shorter
/// than 3 samples.
pub fn calculate_sharpness(raster: &Raster) -> (r: u32)
    requires
        raster.scorable(),
    ensures
        r == raster.sharpness(),
{
    if raster.width < 3 || raster.height < 3 {
        return 0;
    }
    let values = laplacian_responses(raster);
    proof {
        lemma_responses_in_range(raster);
        assert(values@.len() <= raster.pixels@.len()) by (nonlinear_arith)
            requires
                values@.len() == (raster.width - 2) * (raster.height - 2),
                raster.pixels@.len() == raster.width * raster.height,
                raster.width >= 3,
                raster.height >= 3,
        ;
    }
    population_variance_milli(&values)
}

/// A raster whose samples are all equal has sharpness 0.
pub proof fn lemma_uniform_raster_has_zero_sharpness(raster: &Raster)
    requires
        raster.wf(),
        raster.is_uniform(),
    ensures
        raster.sharpness() == 0,
{
    if raster.has_interior() {
        let s = raster.responses();
        let iw = raster.width - 2;
        let ih = raster.height - 2;
        assert forall|k: int| 0 <= k < s.len() implies #[trigger] s[k] == 0 by {
            assert(0 <= k % iw < iw && 0 <= k / iw) by (nonlinear_arith)
                requires
                    0 <= k,
                    iw > 0,
            ;
            assert(k / iw < ih) by (nonlinear_arith)
                requires
                    0 <= k < iw * ih,
                    iw > 0,
            ;
            let x = 1 + k % iw;
            let y = 1 + k / iw;
            lemma_laplacian_in_range(raster, x, y);
            assert(raster.at(x, y - 1) == raster.at(x, y));
            assert(raster.at(x, y + 1) == raster.at(x, y));
            assert(raster.at(x - 1, y) == raster.at(x, y));
            assert(raster.at(x + 1, y) == raster.at(x, y));
        }
        let n = s.len() as int;
        lemma_zero_responses(s, n);
        assert(n > 0) by (nonlinear_arith)
            requires
                n == iw * ih,
                iw > 0,
                ih > 0,
        ;
        let d = n * n * n;
        assert(d > 0) by (nonlinear_arith)
            requires
                d == n * n * n,
                n > 0,
        ;
        assert(0int * 1000 / d == 0) by (nonlinear_arith)
            requires
                d > 0,
        ;
    }
}

/// A raster narrower or shorter than 3 samples has sharpness 0, whatever
/// its samples hold.
pub proof fn lemma_small_raster_has_zero_sharpness(raster: &Raster)
    requires
        raster.width < 3 || raster.height < 3,
    ensures
        raster.sharpness() == 0,
{
}

/// Sharpness depends on the dimensions and samples alone: scoring the same
/// raster twice gives the same value.
pub proof fn lemma_sharpness_deterministic(a: &Raster, b: &Raster)
    requires
        a.width == b.width,
        a.height == b.height,
        a.pixels@ == b.pixels@,
    ensures
        a.sharpness() == b.sharpness(),
{
    assert(a.responses() =~= b.responses());
}

} // verus!
