use vstd::prelude::*;

use crate::image_frame::{luma_scaled, ImageFrame};

verus! {

/// Largest luma, in ten-thousandths.
pub const MAX_LUMA_SCALED: i64 = 2549745;

/// Largest squared gradient magnitude that the Sobel kernels give on 8-bit
/// pixels (luma in ten-thousandths).
pub const MAX_MAG_SQ: u64 = 208038386080800;

/// Default edge threshold, on the 0 to 255 magnitude scale.
pub const DEFAULT_EDGE_THRESHOLD: u32 = 20;

/// The direction class of a gradient, by its angle taken modulo 180 degrees.
#[derive(PartialEq, Eq, Structural, Clone, Copy, Debug)]
pub enum Orientation {
    /// `[0, 22.5)` or `[157.5, 180)` degrees.
    Horizontal,
    /// `[22.5, 67.5)` degrees.
    Forward,
    /// `[67.5, 112.5)` degrees.
    Vertical,
    /// `[112.5, 157.5)` degrees.
    Back,
}

/// Absolute value.
pub open spec fn abs(v: int) -> int {
    if v < 0 {
        -v
    } else {
        v
    }
}

/// The class of the gradient `(gx, gy)`, with `y` growing downwards. Since
/// `tan(22.5°) = √2 - 1`, the angle to the x axis is below 22.5 degrees
/// exactly when `(|gx| + |gy|)² < 2 gx²`, and above 67.5 degrees exactly when
/// `(|gx| + |gy|)² < 2 gy²`; a zero gradient has angle 0.
pub open spec fn orientation(gx: int, gy: int) -> Orientation {
    let a = abs(gx);
    let b = abs(gy);
    if (a == 0 && b == 0) || (a + b) * (a + b) < 2 * (a * a) {
        Orientation::Horizontal
    } else if (a + b) * (a + b) < 2 * (b * b) {
        Orientation::Vertical
    } else if gx * gy > 0 {
        Orientation::Forward
    } else {
        Orientation::Back
    }
}

/// Luma, in ten-thousandths, of pixel `j` of an RGB buffer.
pub open spec fn lum(buf: Seq<u8>, j: int) -> int {
    luma_scaled(buf[3 * j], buf[3 * j + 1], buf[3 * j + 2])
}

/// Pixel `j` of a `w` by `h` grid lies off the first and last rows and columns.
pub open spec fn is_interior(w: int, h: int, j: int) -> bool {
    &&& 0 <= j < w * h
    &&& 1 <= j % w <= w - 2
    &&& 1 <= j / w <= h - 2
}

/// Horizontal Sobel response at pixel `j`; zero on the border.
pub open spec fn gx_at(buf: Seq<u8>, w: int, h: int, j: int) -> int {
    if is_interior(w, h, j) {
        -lum(buf, j - w - 1) + lum(buf, j - w + 1) - 2 * lum(buf, j - 1) + 2 * lum(buf, j + 1) - lum(
            buf,
            j + w - 1,
        ) + lum(buf, j + w + 1)
    } else {
        0
    }
}

/// Vertical Sobel response at pixel `j`; zero on the border.
pub open spec fn gy_at(buf: Seq<u8>, w: int, h: int, j: int) -> int {
    if is_interior(w, h, j) {
        -lum(buf, j - w - 1) - 2 * lum(buf, j - w) - lum(buf, j - w + 1) + lum(buf, j + w - 1) + 2
            * lum(buf, j + w) + lum(buf, j + w + 1)
    } else {
        0
    }
}

/// Squared gradient magnitude at pixel `j`.
pub open spec fn mag_sq_at(buf: Seq<u8>, w: int, h: int, j: int) -> int {
    gx_at(buf, w, h, j) * gx_at(buf, w, h, j) + gy_at(buf, w, h, j) * gy_at(buf, w, h, j)
}

/// The two neighbours of pixel `j` along the gradient direction `o`.
pub open spec fn neighbours(o: Orientation, w: int, j: int) -> (int, int) {
    match o {
        Orientation::Horizontal => (j + 1, j - 1),
        Orientation::Forward => (j - w + 1, j + w - 1),
        Orientation::Vertical => (j - w, j + w),
        Orientation::Back => (j - w - 1, j + w + 1),
    }
}

/// The threshold squared, in the units of `mag_sq_at` (a magnitude of `t` on
/// the 0 to 255 scale is `10000 t` in ten-thousandths).
pub open spec fn threshold_sq(t: int) -> int {
    (10000 * t) * (10000 * t)
}

/// Squared magnitude at pixel `j` after non-maximum suppression: an interior
/// pixel keeps it when it reaches the threshold and neither neighbour along
/// its gradient exceeds it; every other pixel gets zero.
pub open spec fn nms_at(buf: Seq<u8>, w: int, h: int, t: int, j: int) -> int {
    let m = mag_sq_at(buf, w, h, j);
    let (n1, n2) = neighbours(orientation(gx_at(buf, w, h, j), gy_at(buf, w, h, j)), w, j);
    if is_interior(w, h, j) && m >= threshold_sq(t) && m >= mag_sq_at(buf, w, h, n1) && m
        >= mag_sq_at(buf, w, h, n2) {
        m
    } else {
        0
    }
}

/// Gradient and thinned edge strength of every pixel of an image, row by row.
pub struct EdgeInfo {
    pub w: usize,
    pub h: usize,
    /// Horizontal Sobel response (luma in ten-thousandths).
    pub gx: Vec<i64>,
    /// Vertical Sobel response (luma in ten-thousandths).
    pub gy: Vec<i64>,
    /// Squared gradient magnitude after non-maximum suppression.
    pub magnitude_sq: Vec<u64>,
}

impl EdgeInfo {
    /// Three arrays of `w * h` entries.
    pub open spec fn wf(&self) -> bool {
        &&& self.w > 0
        &&& self.h > 0
        &&& self.gx@.len() == self.w * self.h
        &&& self.gy@.len() == self.w * self.h
        &&& self.magnitude_sq@.len() == self.w * self.h
        &&& forall|j: int| 0 <= j < self.w * self.h ==> #[trigger] self.magnitude_sq@[j] <= MAX_MAG_SQ
    }

    /// The edge information of RGB buffer `buf` of a `w` by `h` image with
    /// threshold `t`.
    pub open spec fn describes(&self, buf: Seq<u8>, t: int) -> bool {
        &&& self.wf()
        &&& forall|j: int|
            0 <= j < self.w * self.h ==> #[trigger] self.gx@[j] == gx_at(buf, self.w as int, self.h as int, j)
        &&& forall|j: int|
            0 <= j < self.w * self.h ==> #[trigger] self.gy@[j] == gy_at(buf, self.w as int, self.h as int, j)
        &&& forall|j: int|
            0 <= j < self.w * self.h ==> #[trigger] self.magnitude_sq@[j] == nms_at(
                buf,
                self.w as int,
                self.h as int,
                t,
                j,
            )
    }
}

/// Why a frame was not processed.
#[derive(PartialEq, Eq, Structural, Clone, Copy, Debug)]
pub enum EdgeError {
    /// The frame is not an RGB image of the configured dimensions.
    InvalidDimensions,
}

/// Computes gradients and thinned edges of the frames submitted to it, and
/// holds the result for the latest one.
pub struct EdgeDetector {
    w: usize,
    h: usize,
    threshold: u32,
    info: EdgeInfo,
}

/// Row and column of pixel `j` put back together give `j`; the neighbours of
/// an interior pixel are in the grid.
proof fn lemma_interior_neighbours(w: int, h: int, j: int)
    requires
        w > 0,
        h > 0,
        is_interior(w, h, j),
    ensures
        j == (j / w) * w + j % w,
        0 <= j - w - 1,
        j + w + 1 < w * h,
{
    vstd::arithmetic::div_mod::lemma_fundamental_div_mod(j, w);
    let x = j % w;
    let y = j / w;
    assert(j - w - 1 >= 0) by (nonlinear_arith)
        requires
            j == y * w + x,
            y >= 1,
            x >= 1,
            w > 0,
    ;
    assert(j + w + 1 < w * h) by (nonlinear_arith)
        requires
            j == y * w + x,
            y <= h - 2,
            x <= w - 2,
            w > 0,
            h > 0,
    ;
}

/// The Sobel responses of an interior pixel lie within four times the
/// largest luma.
pub proof fn lemma_interior_bounds(buf: Seq<u8>, w: int, h: int, j: int)
    requires
        w > 0,
        h > 0,
        buf.len() == w * h * 3,
        is_interior(w, h, j),
    ensures
        -4 * MAX_LUMA_SCALED <= gx_at(buf, w, h, j) <= 4 * MAX_LUMA_SCALED,
        -4 * MAX_LUMA_SCALED <= gy_at(buf, w, h, j) <= 4 * MAX_LUMA_SCALED,
{
    lemma_interior_neighbours(w, h, j);
    assert(0 <= 3 * (j + w + 1) + 2 < buf.len()) by (nonlinear_arith)
        requires
            j + w + 1 < w * h,
            buf.len() == w * h * 3,
            j >= 0,
            w >= 0,
    ;
    lemma_lum_bound(buf, j - w - 1);
    lemma_lum_bound(buf, j - w);
    lemma_lum_bound(buf, j - w + 1);
    lemma_lum_bound(buf, j - 1);
    lemma_lum_bound(buf, j + 1);
    lemma_lum_bound(buf, j + w - 1);
    lemma_lum_bound(buf, j + w);
    lemma_lum_bound(buf, j + w + 1);
}

/// Luma of any pixel is between zero and `MAX_LUMA_SCALED`.
proof fn lemma_lum_bound(buf: Seq<u8>, j: int)
    requires
        0 <= 3 * j,
        3 * j + 2 < buf.len(),
    ensures
        0 <= lum(buf, j) <= MAX_LUMA_SCALED,
{
}

/// A Sobel response is at most four times the largest luma, so the squared
/// magnitude is at most `MAX_MAG_SQ`.
proof fn lemma_mag_bound(gx: int, gy: int)
    requires
        -4 * MAX_LUMA_SCALED <= gx <= 4 * MAX_LUMA_SCALED,
        -4 * MAX_LUMA_SCALED <= gy <= 4 * MAX_LUMA_SCALED,
    ensures
        0 <= gx * gx <= 104019193040400,
        0 <= gy * gy <= 104019193040400,
        0 <= gx * gx + gy * gy <= MAX_MAG_SQ,
{
    assert(gx * gx <= 104019193040400) by (nonlinear_arith)
        requires
            -10198980 <= gx <= 10198980,
    ;
    assert(gy * gy <= 104019193040400) by (nonlinear_arith)
        requires
            -10198980 <= gy <= 10198980,
    ;
    assert(0 <= gx * gx) by (nonlinear_arith);
    assert(0 <= gy * gy) by (nonlinear_arith);
}

/// The orientation of a gradient, decided on integers.
pub fn classify(gx: i64, gy: i64) -> (r: Orientation)
    requires
        -4 * MAX_LUMA_SCALED <= gx <= 4 * MAX_LUMA_SCALED,
        -4 * MAX_LUMA_SCALED <= gy <= 4 * MAX_LUMA_SCALED,
    ensures
        r == orientation(gx as int, gy as int),
{
    let a: i128 = if gx < 0 {
        -(gx as i128)
    } else {
        gx as i128
    };
    let b: i128 = if gy < 0 {
        -(gy as i128)
    } else {
        gy as i128
    };
    proof {
        assert((a + b) * (a + b) <= 416076772161600) by (nonlinear_arith)
            requires
                0 <= a <= 10198980,
                0 <= b <= 10198980,
        ;
        assert(0 <= a * a <= 104019193040400) by (nonlinear_arith)
            requires
                0 <= a <= 10198980,
        ;
        assert(0 <= b * b <= 104019193040400) by (nonlinear_arith)
            requires
                0 <= b <= 10198980,
        ;
        assert(-104019193040400 <= (gx as int) * (gy as int) <= 104019193040400) by (nonlinear_arith)
            requires
                -10198980 <= gx <= 10198980,
                -10198980 <= gy <= 10198980,
        ;
    }
    let s = (a + b) * (a + b);
    if (a == 0 && b == 0) || s < 2 * (a * a) {
        Orientation::Horizontal
    } else if s < 2 * (b * b) {
        Orientation::Vertical
    } else if (gx as i128) * (gy as i128) > 0 {
        Orientation::Forward
    } else {
        Orientation::Back
    }
}

impl EdgeDetector {
    /// The configured width.
    pub closed spec fn width(&self) -> nat {
        self.w as nat
    }

    /// The configured height.
    pub closed spec fn height(&self) -> nat {
        self.h as nat
    }

    /// The configured threshold, on the 0 to 255 magnitude scale.
    pub closed spec fn threshold(&self) -> nat {
        self.threshold as nat
    }

    /// The edge information held.
    pub closed spec fn info(&self) -> EdgeInfo {
        self.info
    }

    /// Dimensions positive, and the held information matches them.
    pub closed spec fn wf(&self) -> bool {
        &&& self.w > 0
        &&& self.h > 0
        &&& self.info.wf()
        &&& self.info.w == self.w
        &&& self.info.h == self.h
    }

    /// A detector for `w` by `h` frames, holding all-zero information.
    pub fn new(w: usize, h: usize, threshold: u32) -> (r: Self)
        requires
            w > 0,
            h > 0,
            w * h <= usize::MAX,
        ensures
            r.wf(),
            r.width() == w,
            r.height() == h,
            r.threshold() == threshold,
            forall|j: int| 0 <= j < w * h ==> #[trigger] r.info().magnitude_sq@[j] == 0,
    {
        let n = w * h;
        let info = EdgeInfo {
            w,
            h,
            gx: vec![0i64; n],
            gy: vec![0i64; n],
            magnitude_sq: vec![0u64; n],
        };
        EdgeDetector { w, h, threshold, info }
    }

    /// Processes `frame` and holds the result; fails with `InvalidDimensions`,
    /// keeping the previous result, unless `frame` is an RGB image of the
    /// configured dimensions.
    pub fn submit_frame(&mut self, frame: &ImageFrame) -> (r: Result<(), EdgeError>)
        requires
            old(self).wf(),
        ensures
            final(self).wf(),
            final(self).width() == old(self).width(),
            final(self).height() == old(self).height(),
            final(self).threshold() == old(self).threshold(),
            final(self).info().w == old(self).width(),
            final(self).info().h == old(self).height(),
            r is Ok <==> (frame.is_rgb() && frame.w == old(self).width() && frame.h
                == old(self).height()),
            r is Err ==> r->Err_0 == EdgeError::InvalidDimensions && final(self).info() == old(
                self,
            ).info(),
            r is Ok ==> final(self).info().describes(frame.buffer@, old(self).threshold() as int),
    {
        if frame.w != self.w || frame.h != self.h || frame.bytes_per_pixel != 3 {
            return Err(EdgeError::InvalidDimensions);
        }
        let blen = frame.buffer.len();
        let expected = match self.w.checked_mul(self.h) {
            Some(n) => n.checked_mul(3),
            None => None,
        };
        match expected {
            Some(len) => {
                if blen != len {
                    return Err(EdgeError::InvalidDimensions);
                }
            },
            None => {
                proof {
                    assert(self.w * self.h <= self.w * self.h * 3) by (nonlinear_arith)
                        requires
                            self.w * self.h >= 0,
                    ;
                }
                return Err(EdgeError::InvalidDimensions);
            },
        }
        self.info = Self::process_frame(frame, self.threshold);
        Ok(())
    }

    /// The information of the latest frame processed.
    pub fn get_edge_info(&self) -> (r: &EdgeInfo)
        ensures
            *r == self.info(),
    {
        &self.info
    }

    /// Gradients and thinned edges of an RGB frame.
    pub fn process_frame(frame: &ImageFrame, threshold: u32) -> (r: EdgeInfo)
        requires
            frame.is_rgb(),
        ensures
            r.w == frame.w,
            r.h == frame.h,
            r.describes(frame.buffer@, threshold as int),
    {
        let w = frame.w;
        let h = frame.h;
        let len = frame.buffer.len();
        proof {
            assert(w * h <= w * h * 3) by (nonlinear_arith)
                requires
                    w * h >= 0,
            ;
        }
        let intensity = Self::create_intensity_map(frame);
        let (gx, gy, mag) = Self::sobel(&intensity, w, h, Ghost(frame.buffer@));
        let magnitude_sq = Self::non_maximum_suppression(&mag, &gx, &gy, w, h, threshold, Ghost(frame.buffer@));
        EdgeInfo { w, h, gx, gy, magnitude_sq }
    }

    /// Luma of every pixel, in ten-thousandths.
    fn create_intensity_map(frame: &ImageFrame) -> (r: Vec<i64>)
        requires
            frame.is_rgb(),
        ensures
            r@.len() == frame.w * frame.h,
            forall|j: int| 0 <= j < frame.w * frame.h ==> #[trigger] r@[j] == lum(frame.buffer@, j),
    {
        let len = frame.buffer.len();
        proof {
            assert(frame.w * frame.h <= frame.w * frame.h * 3) by (nonlinear_arith)
                requires
                    frame.w * frame.h >= 0,
            ;
        }
        let n = frame.w * frame.h;
        let mut out: Vec<i64> = Vec::with_capacity(n);
        let mut j: usize = 0;
        while j < n
            invariant
                frame.is_rgb(),
                n == frame.w * frame.h,
                frame.buffer@.len() == n * 3,
                len == frame.buffer@.len(),
                j <= n,
                out@.len() == j,
                forall|k: int| 0 <= k < j ==> #[trigger] out@[k] == lum(frame.buffer@, k),
            decreases n - j,
        {
            let r = frame.buffer[3 * j] as i64;
            let g = frame.buffer[3 * j + 1] as i64;
            let b = frame.buffer[3 * j + 2] as i64;
            out.push(2989 * r + 5870 * g + 1140 * b);
            j = j + 1;
        }
        out
    }

    /// Sobel responses and squared magnitudes of a luma map.
    fn sobel(intensity: &Vec<i64>, w: usize, h: usize, Ghost(buf): Ghost<Seq<u8>>) -> (r: (
        Vec<i64>,
        Vec<i64>,
        Vec<u64>,
    ))
        requires
            w > 0,
            h > 0,
            w * h <= usize::MAX,
            buf.len() == w * h * 3,
            intensity@.len() == w * h,
            forall|j: int| 0 <= j < w * h ==> #[trigger] intensity@[j] == lum(buf, j),
        ensures
            r.0@.len() == w * h,
            r.1@.len() == w * h,
            r.2@.len() == w * h,
            forall|j: int| 0 <= j < w * h ==> #[trigger] r.0@[j] == gx_at(buf, w as int, h as int, j),
            forall|j: int| 0 <= j < w * h ==> #[trigger] r.1@[j] == gy_at(buf, w as int, h as int, j),
            forall|j: int|
                0 <= j < w * h ==> #[trigger] r.2@[j] == mag_sq_at(buf, w as int, h as int, j),
            forall|j: int| 0 <= j < w * h ==> #[trigger] r.2@[j] <= MAX_MAG_SQ,
    {
        let n = w * h;
        let mut gx: Vec<i64> = Vec::with_capacity(n);
        let mut gy: Vec<i64> = Vec::with_capacity(n);
        let mut mag: Vec<u64> = Vec::with_capacity(n);
        let mut j: usize = 0;
        while j < n
            invariant
                w > 0,
                h > 0,
                n == w * h,
                buf.len() == n * 3,
                intensity@.len() == n,
                forall|k: int| 0 <= k < n ==> #[trigger] intensity@[k] == lum(buf, k),
                j <= n,
                gx@.len() == j,
                gy@.len() == j,
                mag@.len() == j,
                forall|k: int| 0 <= k < j ==> #[trigger] gx@[k] == gx_at(buf, w as int, h as int, k),
                forall|k: int| 0 <= k < j ==> #[trigger] gy@[k] == gy_at(buf, w as int, h as int, k),
                forall|k: int|
                    0 <= k < j ==> #[trigger] mag@[k] == mag_sq_at(buf, w as int, h as int, k),
                forall|k: int| 0 <= k < j ==> #[trigger] mag@[k] <= MAX_MAG_SQ,
            decreases n - j,
        {
            let x = j % w;
            let y = j / w;
            if x >= 1 && x + 1 < w && y >= 1 && y + 1 < h {
                proof {
                    assert(is_interior(w as int, h as int, j as int));
                    lemma_interior_neighbours(w as int, h as int, j as int);
                    let js = j as int;
                    let ws = w as int;
                    assert(0 <= 3 * (js + ws + 1) + 2 < buf.len()) by (nonlinear_arith)
                        requires
                            js + ws + 1 < ws * h,
                            buf.len() == ws * h * 3,
                            js >= 0,
                            ws >= 0,
                    ;
                    lemma_lum_bound(buf, js - ws - 1);
                    lemma_lum_bound(buf, js - ws);
                    lemma_lum_bound(buf, js - ws + 1);
                    lemma_lum_bound(buf, js - 1);
                    lemma_lum_bound(buf, js + 1);
                    lemma_lum_bound(buf, js + ws - 1);
                    lemma_lum_bound(buf, js + ws);
                    lemma_lum_bound(buf, js + ws + 1);
                }
                let ul = intensity[j - w - 1];
                let u = intensity[j - w];
                let ur = intensity[j - w + 1];
                let l = intensity[j - 1];
                let r = intensity[j + 1];
                let dl = intensity[j + w - 1];
                let d = intensity[j + w];
                let dr = intensity[j + w + 1];
                let vx = -ul + ur - 2 * l + 2 * r - dl + dr;
                let vy = -ul - 2 * u - ur + dl + 2 * d + dr;
                proof {
                    lemma_mag_bound(vx as int, vy as int);
                }
                let m = ((vx as i128) * (vx as i128) + (vy as i128) * (vy as i128)) as u64;
                gx.push(vx);
                gy.push(vy);
                mag.push(m);
            } else {
                proof {
                    assert(!is_interior(w as int, h as int, j as int));
                }
                gx.push(0);
                gy.push(0);
                mag.push(0);
            }
            j = j + 1;
        }
        (gx, gy, mag)
    }

    /// Keeps the squared magnitude of each interior pixel that reaches the
    /// threshold and is not exceeded by a neighbour along its gradient.
    fn non_maximum_suppression(
        mag: &Vec<u64>,
        gx: &Vec<i64>,
        gy: &Vec<i64>,
        w: usize,
        h: usize,
        threshold: u32,
        Ghost(buf): Ghost<Seq<u8>>,
    ) -> (r: Vec<u64>)
        requires
            w > 0,
            h > 0,
            w * h <= usize::MAX,
            mag@.len() == w * h,
            gx@.len() == w * h,
            gy@.len() == w * h,
            forall|j: int| 0 <= j < w * h ==> #[trigger] gx@[j] == gx_at(buf, w as int, h as int, j),
            forall|j: int| 0 <= j < w * h ==> #[trigger] gy@[j] == gy_at(buf, w as int, h as int, j),
            forall|j: int|
                0 <= j < w * h ==> #[trigger] mag@[j] == mag_sq_at(buf, w as int, h as int, j),
            forall|j: int| 0 <= j < w * h ==> #[trigger] mag@[j] <= MAX_MAG_SQ,
            buf.len() == w * h * 3,
        ensures
            r@.len() == w * h,
            forall|j: int|
                0 <= j < w * h ==> #[trigger] r@[j] == nms_at(buf, w as int, h as int, threshold as int, j),
            forall|j: int| 0 <= j < w * h ==> #[trigger] r@[j] <= MAX_MAG_SQ,
    {
        let n = w * h;
        let t: u128 = threshold as u128 * 10000;
        proof {
            assert(t * t <= 1844674407370955161500000000) by (nonlinear_arith)
                requires
                    0 <= t <= 42949672950000,
            ;
        }
        let t2: u128 = t * t;
        let mut out: Vec<u64> = Vec::with_capacity(n);
        let mut j: usize = 0;
        while j < n
            invariant
                w > 0,
                h > 0,
                n == w * h,
                buf.len() == w * h * 3,
                mag@.len() == n,
                gx@.len() == n,
                gy@.len() == n,
                forall|k: int| 0 <= k < n ==> #[trigger] gx@[k] == gx_at(buf, w as int, h as int, k),
                forall|k: int| 0 <= k < n ==> #[trigger] gy@[k] == gy_at(buf, w as int, h as int, k),
                forall|k: int|
                    0 <= k < n ==> #[trigger] mag@[k] == mag_sq_at(buf, w as int, h as int, k),
                forall|k: int| 0 <= k < n ==> #[trigger] mag@[k] <= MAX_MAG_SQ,
                t2 == threshold_sq(threshold as int),
                j <= n,
                out@.len() == j,
                forall|k: int|
                    0 <= k < j ==> #[trigger] out@[k] == nms_at(buf, w as int, h as int, threshold as int, k),
                forall|k: int| 0 <= k < j ==> #[trigger] out@[k] <= MAX_MAG_SQ,
            decreases n - j,
        {
            let x = j % w;
            let y = j / w;
            let mut keep: u64 = 0;
            if x >= 1 && x + 1 < w && y >= 1 && y + 1 < h {
                proof {
                    assert(is_interior(w as int, h as int, j as int));
                    lemma_interior_neighbours(w as int, h as int, j as int);
                }
                let m = mag[j];
                if (m as u128) >= t2 {
                    let gxv = gx[j];
                    let gyv = gy[j];
                    proof {
                        let js = j as int;
                        let ws = w as int;
                        assert(0 <= 3 * (js + ws + 1) + 2 < buf.len()) by (nonlinear_arith)
                            requires
                                js + ws + 1 < ws * h,
                                buf.len() == ws * h * 3,
                                js >= 0,
                                ws >= 0,
                        ;
                        lemma_lum_bound(buf, js - ws - 1);
                        lemma_lum_bound(buf, js - ws);
                        lemma_lum_bound(buf, js - ws + 1);
                        lemma_lum_bound(buf, js - 1);
                        lemma_lum_bound(buf, js + 1);
                        lemma_lum_bound(buf, js + ws - 1);
                        lemma_lum_bound(buf, js + ws);
                        lemma_lum_bound(buf, js + ws + 1);
                    }
                    let o = classify(gxv, gyv);
                    let (n1, n2) = match o {
                        Orientation::Horizontal => (j + 1, j - 1),
                        Orientation::Forward => (j - w + 1, j + w - 1),
                        Orientation::Vertical => (j - w, j + w),
                        Orientation::Back => (j - w - 1, j + w + 1),
                    };
                    if m >= mag[n1] && m >= mag[n2] {
                        keep = m;
                    }
                }
            }
            out.push(keep);
            j = j + 1;
        }
        out
    }
}

} // verus!
