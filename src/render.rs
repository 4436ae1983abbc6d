use vstd::arithmetic::div_mod::{
    lemma_fundamental_div_mod, lemma_fundamental_div_mod_converse, lemma_mod_pos_bound,
    lemma_multiply_divide_lt,
};
use vstd::prelude::*;

use crate::plan::RenderPlan;
use crate::raster::{RgbRaster, channel, pixel_of, raster_pixels, raster_size};

verus! {

/// What the driver of a render does next.
#[derive(Clone, Copy, Debug, PartialEq, Eq, Structural)]
pub enum RenderAction {
    /// Trace one more jittered sample through pixel `(i, j)`.
    Sample { i: u32, j: u32 },
    /// The samples of pixel `(i, j)` are all in: average them, encode the
    /// color, and hand it in.
    Shade { i: u32, j: u32 },
    /// Every pixel has been shaded.
    Done,
}

/// Row `row` of `rows` has just been completed.
#[derive(Clone, Copy, Debug, PartialEq, Eq, Structural)]
pub struct RowDone {
    pub row: u32,
    pub rows: u32,
}

/// How far a render has come: its plan, the colors handed in so far (in the
/// order the pixels were shaded), and how many samples the current pixel has.
pub struct RenderView {
    pub plan: RenderPlan,
    pub shaded: Seq<(u8, u8, u8)>,
    pub samples: nat,
}

/// The step a render at `v` asks for: the `k`-th pixel, row by row from the
/// top left, once `k` pixels are shaded; sampled `samples_per_pixel` times,
/// then shaded.
pub open spec fn action_of(v: RenderView) -> RenderAction {
    let k = v.shaded.len() as int;
    if k >= v.plan.pixel_count() {
        RenderAction::Done
    } else if v.samples < v.plan.samples_per_pixel {
        RenderAction::Sample { i: pixel_of(v.plan.image_width, k).0, j: pixel_of(v.plan.image_width, k).1 }
    } else {
        RenderAction::Shade { i: pixel_of(v.plan.image_width, k).0, j: pixel_of(v.plan.image_width, k).1 }
    }
}

/// The raster after the first `shaded.len()` pixels, row by row from the top
/// left, took the colors of `shaded`; the others are still black.
pub open spec fn partial_raster(width: u32, height: u32, shaded: Seq<(u8, u8, u8)>) -> Map<
    (u32, u32),
    (u8, u8, u8),
> {
    Map::new(
        |p: (u32, u32)| p.0 < width && p.1 < height,
        |p: (u32, u32)|
            {
                let k = (p.1 as int) * (width as int) + (p.0 as int);
                if k < shaded.len() {
                    shaded[k]
                } else {
                    (0u8, 0u8, 0u8)
                }
            },
    )
}

/// A render in progress: it walks the raster row by row from the top, each
/// pixel left to right, asks for the samples of each pixel, and writes each
/// pixel's color into its raster as it is handed in.
pub struct Render {
    plan: RenderPlan,
    raster: RgbRaster,
    col: u32,
    row: u32,
    samples: u32,
    shaded: Ghost<Seq<(u8, u8, u8)>>,
}

impl View for Render {
    type V = RenderView;

    closed spec fn view(&self) -> RenderView {
        RenderView { plan: self.plan, shaded: self.shaded@, samples: self.samples as nat }
    }
}

proof fn lemma_position(width: u32, row: u32, col: u32)
    requires
        col < width,
    ensures
        pixel_of(width, (row as int) * (width as int) + (col as int)) == (col, row),
{
    let k = (row as int) * (width as int) + (col as int);
    lemma_fundamental_div_mod_converse(k, width as int, row as int, col as int);
}

impl Render {
    pub closed spec fn wf(&self) -> bool {
        let w = self.plan.image_width;
        let h = self.plan.image_height;
        &&& self.plan.wf()
        &&& self.col < w
        &&& self.row <= h
        &&& self.row == h ==> self.col == 0
        &&& self.shaded@.len() == (self.row as int) * (w as int) + (self.col as int)
        &&& self.samples <= self.plan.samples_per_pixel
        &&& raster_size(self.raster) == (w, h)
        &&& raster_pixels(self.raster) == partial_raster(w, h, self.shaded@)
    }

    /// Starts a render of `plan` with every pixel black.
    pub fn new(plan: RenderPlan) -> (r: Render)
        requires
            plan.wf(),
        ensures
            r.wf(),
            r@ == (RenderView { plan, shaded: Seq::empty(), samples: 0 }),
    {
        let raster = RgbRaster::new(plan.image_width, plan.image_height);
        let r = Render { plan, raster, col: 0, row: 0, samples: 0, shaded: Ghost(Seq::empty()) };
        assert(raster_pixels(r.raster) =~= partial_raster(
            plan.image_width,
            plan.image_height,
            Seq::empty(),
        ));
        r
    }

    /// The plan this render follows.
    pub fn plan(&self) -> (r: RenderPlan)
        ensures
            r == self@.plan,
    {
        self.plan
    }

    /// What the driver does next.
    pub fn next_action(&self) -> (a: RenderAction)
        requires
            self.wf(),
        ensures
            a == action_of(self@),
    {
        proof {
            lemma_position(self.plan.image_width, self.row, self.col);
            assert((self.plan.image_height as int) * (self.plan.image_width as int)
                == self@.plan.pixel_count()) by (nonlinear_arith);
            if self.row < self.plan.image_height {
                assert((self.row as int) * (self.plan.image_width as int) + (self.col as int)
                    < (self.plan.image_height as int) * (self.plan.image_width as int))
                    by (nonlinear_arith)
                    requires
                        self.row < self.plan.image_height,
                        self.col < self.plan.image_width,
                ;
            }
        }
        if self.row == self.plan.image_height {
            RenderAction::Done
        } else if self.samples < self.plan.samples_per_pixel {
            RenderAction::Sample { i: self.col, j: self.row }
        } else {
            RenderAction::Shade { i: self.col, j: self.row }
        }
    }

    /// Counts one sample of the current pixel as traced.
    pub fn sample_taken(&mut self)
        requires
            old(self).wf(),
            action_of(old(self)@) is Sample,
        ensures
            final(self).wf(),
            final(self)@ == (RenderView { samples: old(self)@.samples + 1, ..old(self)@ }),
    {
        proof {
            self.lemma_in_progress();
        }
        self.samples = self.samples + 1;
    }

    /// Writes the color of the current pixel into the raster and moves on to
    /// the next one. Reports the row when this pixel was the last of it.
    pub fn shade(&mut self, rgb: (u8, u8, u8)) -> (done: Option<RowDone>)
        requires
            old(self).wf(),
            action_of(old(self)@) is Shade,
        ensures
            final(self).wf(),
            final(self)@ == (RenderView {
                shaded: old(self)@.shaded.push(rgb),
                samples: 0,
                ..old(self)@
            }),
            done == (if pixel_of(old(self)@.plan.image_width, old(self)@.shaded.len() as int).0
                == old(self)@.plan.image_width - 1 {
                Some(
                    RowDone {
                        row: pixel_of(old(self)@.plan.image_width, old(self)@.shaded.len() as int).1,
                        rows: old(self)@.plan.image_height,
                    },
                )
            } else {
                None
            }),
    {
        proof {
            self.lemma_in_progress();
            lemma_position(self.plan.image_width, self.row, self.col);
        }
        let w = self.plan.image_width;
        let h = self.plan.image_height;
        let ghost (col, row) = (self.col, self.row);
        self.raster.put(self.col, self.row, rgb);
        self.shaded = Ghost(self.shaded@.push(rgb));
        self.samples = 0;
        let done = if self.col + 1 == w {
            let finished_row = self.row;
            self.col = 0;
            self.row = self.row + 1;
            assert((self.row as int) * (w as int) == (finished_row as int) * (w as int) + (w as int))
                by (nonlinear_arith)
                requires
                    self.row == finished_row + 1,
            ;
            Some(RowDone { row: finished_row, rows: h })
        } else {
            self.col = self.col + 1;
            None
        };
        assert(raster_pixels(self.raster) =~= partial_raster(w, h, self.shaded@)) by {
            assert forall|p: (u32, u32)| p.0 < w && p.1 < h implies #[trigger] raster_pixels(
                self.raster,
            )[p] == partial_raster(w, h, self.shaded@)[p] by {
                let k = (p.1 as int) * (w as int) + (p.0 as int);
                let at = (row as int) * (w as int) + (col as int);
                if p != (col, row) {
                    lemma_position(w, p.1, p.0);
                    assert(k != at);
                }
            }
        }
        done
    }

    /// Hands out the finished raster as bytes: the colors handed in, in order,
    /// three channels each. Row by row from the top left, that is the image.
    pub fn finish(self) -> (bytes: Vec<u8>)
        requires
            self.wf(),
            action_of(self@) is Done,
        ensures
            bytes@.len() == 3 * self@.shaded.len(),
            self@.shaded.len() == self@.plan.pixel_count(),
            forall|k: int, c: int|
                0 <= k < self@.shaded.len() && 0 <= c < 3 ==> #[trigger] bytes@[3 * k + c] == channel(
                    self@.shaded[k],
                    c,
                ),
    {
        let w = self.plan.image_width;
        let h = self.plan.image_height;
        let ghost shaded = self.shaded@;
        proof {
            if self.row < h {
                assert((self.row as int) * (w as int) + (self.col as int) < (h as int) * (w as int))
                    by (nonlinear_arith)
                    requires
                        self.row < h,
                        self.col < w,
                ;
            }
            assert(3 * (w as int) * (h as int) == 3 * ((h as int) * (w as int)))
                by (nonlinear_arith);
        }
        let ghost pixels = raster_pixels(self.raster);
        let bytes = self.raster.into_raw();
        proof {
            assert forall|k: int, c: int|
                0 <= k < shaded.len() && 0 <= c < 3 implies #[trigger] bytes@[3 * k + c] == channel(
                shaded[k],
                c,
            ) by {
                lemma_fundamental_div_mod(k, w as int);
                lemma_mod_pos_bound(k, w as int);
                lemma_multiply_divide_lt(k, w as int, h as int);
                let p = pixel_of(w, k);
                assert((w as int) * (k / (w as int)) == (k / (w as int)) * (w as int))
                    by (nonlinear_arith);
                assert(p.0 < w && p.1 < h);
                assert((p.1 as int) * (w as int) + (p.0 as int) == k);
                assert(pixels[p] == shaded[k]);
            }
        }
        bytes
    }

    proof fn lemma_in_progress(&self)
        requires
            self.wf(),
            !(action_of(self@) is Done),
        ensures
            self.row < self.plan.image_height,
    {
        if self.row == self.plan.image_height {
            assert((self.row as int) * (self.plan.image_width as int) == self@.plan.pixel_count())
                by (nonlinear_arith)
                requires
                    self.row == self.plan.image_height,
            ;
        }
    }
}

} // verus!
