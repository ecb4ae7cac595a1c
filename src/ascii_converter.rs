use vstd::prelude::*;

use crate::ascii_frame::AsciiFrame;
use crate::edge_detector::{
    classify, gx_at, gy_at, nms_at, orientation, threshold_sq, EdgeDetector, EdgeError,
    Orientation, DEFAULT_EDGE_THRESHOLD, MAX_LUMA_SCALED, MAX_MAG_SQ,
};
use crate::image_frame::{luma, ImageFrame};

verus! {

/// Default contrast, in hundredths.
pub const DEFAULT_CONTRAST: u32 = 150;

/// Default brightness, in hundredths.
pub const DEFAULT_BRIGHTNESS: i32 = 0;

/// Default camera width.
pub const DEFAULT_WIDTH: usize = 640;

/// Default camera height.
pub const DEFAULT_HEIGHT: usize = 480;

/// Largest number of glyphs in one family.
pub const MAX_GLYPHS: usize = 0xFFFF_FFFF;

/// Why a converter could not be made or a frame not converted.
#[derive(PartialEq, Eq, Structural, Clone, Copy, Debug)]
pub enum ConverterError {
    /// A glyph family is empty or has more than `MAX_GLYPHS` glyphs.
    InvalidGlyphFamily,
    /// The image dimensions are zero, too large, or not those configured.
    InvalidDimensions,
}

/// What a converter is configured with.
pub struct ConverterConfig {
    pub shading: Seq<char>,
    pub horizontal: Seq<char>,
    pub vertical: Seq<char>,
    pub forward: Seq<char>,
    pub back: Seq<char>,
    /// Edge threshold on the 0 to 255 magnitude scale.
    pub threshold: int,
    /// Contrast, in hundredths.
    pub contrast: int,
    /// Brightness, in hundredths.
    pub brightness: int,
    /// Image width.
    pub w: int,
    /// Image height.
    pub h: int,
}

/// The glyph family for gradients of class `o`: a horizontal gradient crosses
/// a vertical edge, so its family holds vertical strokes, and so on.
pub open spec fn family(c: ConverterConfig, o: Orientation) -> Seq<char> {
    match o {
        Orientation::Horizontal => c.horizontal,
        Orientation::Forward => c.forward,
        Orientation::Vertical => c.vertical,
        Orientation::Back => c.back,
    }
}

/// `c` belongs to one of the five families.
pub open spec fn in_families(cfg: ConverterConfig, c: char) -> bool {
    cfg.shading.contains(c) || cfg.horizontal.contains(c) || cfg.vertical.contains(c)
        || cfg.forward.contains(c) || cfg.back.contains(c)
}

/// A colour channel after contrast and brightness, both in hundredths:
/// `255 * clamp((v / 255 - 0.5) * contrast + 0.5 + brightness, 0, 1)`, rounded down.
pub open spec fn adjust_channel(v: int, contrast: int, brightness: int) -> int {
    let num = (2 * v - 255) * contrast + 25500 + 510 * brightness;
    if num < 0 {
        0
    } else if num / 200 > 255 {
        255
    } else {
        num / 200
    }
}

/// Index into a shading family of `n` glyphs for a luma of `l`:
/// `floor(l / 256 * n)`, at most `n - 1`.
pub open spec fn shade_level(l: int, n: int) -> int {
    if l * n / 256 > n - 1 {
        n - 1
    } else {
        l * n / 256
    }
}

/// The largest level from `k` up, below `n`, whose lower bound
/// `2550000 * level` (a magnitude of `255 * level / n` in ten-thousandths,
/// times `n`) is reached by `n * sqrt(s)`.
pub open spec fn edge_level_from(s: int, n: int, k: int) -> int
    decreases n - k,
{
    if k + 1 < n && (2550000 * (k + 1)) * (2550000 * (k + 1)) <= n * n * s {
        edge_level_from(s, n, k + 1)
    } else {
        k
    }
}

/// Index into an edge family of `n` glyphs for squared magnitude `s`:
/// `floor(magnitude / 255 * n)`, at most `n - 1`.
pub open spec fn edge_level(s: int, n: int) -> int {
    edge_level_from(s, n, 0)
}

/// The source pixel of cell `k` of a `wa` by `ha` grid drawn from a `w` by
/// `h` image: nearest neighbour, `(floor(x * w / wa), floor(y * h / ha))`.
pub open spec fn sample_index(w: int, h: int, wa: int, ha: int, k: int) -> int {
    ((k / wa) * h / ha) * w + (k % wa) * w / wa
}

/// The character of cell `k`: a directional glyph where the thinned edge at
/// the source pixel exceeds the threshold, else a shading glyph for the
/// adjusted luma of the source pixel.
pub open spec fn cell_char(cfg: ConverterConfig, buf: Seq<u8>, wa: int, ha: int, k: int) -> char {
    let e = sample_index(cfg.w, cfg.h, wa, ha, k);
    let m = nms_at(buf, cfg.w, cfg.h, cfg.threshold, e);
    if m > threshold_sq(cfg.threshold) {
        let fam = family(cfg, orientation(gx_at(buf, cfg.w, cfg.h, e), gy_at(buf, cfg.w, cfg.h, e)));
        fam[edge_level(m, fam.len() as int)]
    } else {
        let r = adjust_channel(buf[3 * e] as int, cfg.contrast, cfg.brightness);
        let g = adjust_channel(buf[3 * e + 1] as int, cfg.contrast, cfg.brightness);
        let b = adjust_channel(buf[3 * e + 2] as int, cfg.contrast, cfg.brightness);
        cfg.shading[shade_level(luma(r as u8, g as u8, b as u8), cfg.shading.len() as int)]
    }
}

/// Turns images into character grids: shading glyphs by luma, directional
/// glyphs on strong edges.
pub struct AsciiConverter {
    edge_detector: EdgeDetector,
    ascii_intensity: Vec<char>,
    ascii_horizontal: Vec<char>,
    ascii_vertical: Vec<char>,
    ascii_forward: Vec<char>,
    ascii_back: Vec<char>,
    edge_threshold: u32,
    contrast: u32,
    brightness: i32,
}

/// An edge level lies between `k` and `n - 1`.
pub proof fn lemma_edge_level_range(s: int, n: int, k: int)
    requires
        0 <= k < n,
    ensures
        k <= edge_level_from(s, n, k) < n,
    decreases n - k,
{
    if k + 1 < n && (2550000 * (k + 1)) * (2550000 * (k + 1)) <= n * n * s {
        lemma_edge_level_range(s, n, k + 1);
    }
}

/// Every cell of a converted frame is drawn from the five configured glyph
/// families.
pub proof fn lemma_cell_in_families(cfg: ConverterConfig, buf: Seq<u8>, wa: int, ha: int, k: int)
    requires
        cfg.shading.len() > 0,
        cfg.horizontal.len() > 0,
        cfg.vertical.len() > 0,
        cfg.forward.len() > 0,
        cfg.back.len() > 0,
    ensures
        in_families(cfg, cell_char(cfg, buf, wa, ha, k)),
{
    let e = sample_index(cfg.w, cfg.h, wa, ha, k);
    let m = nms_at(buf, cfg.w, cfg.h, cfg.threshold, e);
    if m > threshold_sq(cfg.threshold) {
        let o = orientation(gx_at(buf, cfg.w, cfg.h, e), gy_at(buf, cfg.w, cfg.h, e));
        let fam = family(cfg, o);
        lemma_edge_level_range(m, fam.len() as int, 0);
        let i = edge_level(m, fam.len() as int);
        assert(fam[i] == cell_char(cfg, buf, wa, ha, k));
        assert(fam.contains(fam[i]));
    } else {
        let r = adjust_channel(buf[3 * e] as int, cfg.contrast, cfg.brightness);
        let g = adjust_channel(buf[3 * e + 1] as int, cfg.contrast, cfg.brightness);
        let b = adjust_channel(buf[3 * e + 2] as int, cfg.contrast, cfg.brightness);
        let l = luma(r as u8, g as u8, b as u8);
        let n = cfg.shading.len() as int;
        let i = shade_level(l, n);
        assert(0 <= l * n / 256) by (nonlinear_arith)
            requires
                0 <= l,
                0 <= n,
        ;
        assert(0 <= i < n);
        assert(cfg.shading.contains(cfg.shading[i]));
    }
}

/// A channel after contrast and brightness, in hundredths.
fn adjust_channel_exec(v: u8, contrast: u32, brightness: i32) -> (r: u8)
    ensures
        r as int == adjust_channel(v as int, contrast as int, brightness as int),
{
    let d: i64 = 2 * (v as i64) - 255;
    proof {
        assert(-1095216660225 <= d * (contrast as i64) <= 1095216660225) by (nonlinear_arith)
            requires
                -255 <= d <= 255,
                0 <= contrast <= 4294967295u32,
        ;
    }
    let num: i64 = d * (contrast as i64) + 25500 + 510 * (brightness as i64);
    if num < 0 {
        0
    } else if num / 200 > 255 {
        255
    } else {
        (num / 200) as u8
    }
}

/// Shading index for luma `l` in a family of `n` glyphs.
fn shade_level_exec(l: u8, n: usize) -> (r: usize)
    requires
        0 < n <= MAX_GLYPHS,
    ensures
        r as int == shade_level(l as int, n as int),
        r < n,
{
    proof {
        assert((l as int) * (n as int) <= 255 * 0xFFFF_FFFF) by (nonlinear_arith)
            requires
                0 <= l <= 255,
                0 < n <= 0xFFFF_FFFF,
        ;
    }
    let p: u64 = (l as u64) * (n as u64);
    let q = p / 256;
    if q > (n - 1) as u64 {
        n - 1
    } else {
        q as usize
    }
}

/// Edge-glyph index for squared magnitude `s` in a family of `n` glyphs.
fn edge_level_exec(s: u64, n: usize) -> (r: usize)
    requires
        s <= MAX_MAG_SQ,
        0 < n <= MAX_GLYPHS,
    ensures
        r as int == edge_level(s as int, n as int),
        r < n,
{
    proof {
        assert((n as int) * (n as int) <= 0xFFFF_FFFE_0000_0001u128) by (nonlinear_arith)
            requires
                0 < n <= 0xFFFF_FFFF,
        ;
    }
    let nn: u128 = (n as u128) * (n as u128);
    proof {
        assert(nn * (s as int) <= 0xFFFF_FFFE_0000_0001u128 * 208038386080800u128) by (nonlinear_arith)
            requires
                0 <= nn <= 0xFFFF_FFFE_0000_0001u128,
                0 <= s <= 208038386080800u64,
        ;
    }
    let target: u128 = nn * (s as u128);
    let mut k: usize = 0;
    let mut done = false;
    while !done && k + 1 < n
        invariant
            0 < n <= MAX_GLYPHS,
            k < n,
            done ==> edge_level_from(s as int, n as int, k as int) == k,
            target == (n as int) * (n as int) * (s as int),
            edge_level_from(s as int, n as int, k as int) == edge_level(s as int, n as int),
        decreases n - k + if done {
            0int
        } else {
            1int
        },
    {
        let step: u128 = 2550000 * ((k + 1) as u128);
        proof {
            assert(step * step <= (2550000 * 0xFFFF_FFFFu128) * (2550000 * 0xFFFF_FFFFu128)) by (nonlinear_arith)
                requires
                    0 <= step <= 2550000 * 0xFFFF_FFFFu128,
            ;
        }
        if step * step > target {
            done = true;
        } else {
            k = k + 1;
        }
    }
    k
}

impl AsciiConverter {
    /// What the converter is configured with.
    pub closed spec fn config(&self) -> ConverterConfig {
        ConverterConfig {
            shading: self.ascii_intensity@,
            horizontal: self.ascii_horizontal@,
            vertical: self.ascii_vertical@,
            forward: self.ascii_forward@,
            back: self.ascii_back@,
            threshold: self.edge_threshold as int,
            contrast: self.contrast as int,
            brightness: self.brightness as int,
            w: self.edge_detector.width() as int,
            h: self.edge_detector.height() as int,
        }
    }

    /// Families non-empty and bounded; the detector set up with the
    /// converter's threshold.
    pub closed spec fn wf(&self) -> bool {
        &&& self.edge_detector.wf()
        &&& self.edge_detector.threshold() == self.edge_threshold
        &&& 0 < self.ascii_intensity@.len() <= MAX_GLYPHS
        &&& 0 < self.ascii_horizontal@.len() <= MAX_GLYPHS
        &&& 0 < self.ascii_vertical@.len() <= MAX_GLYPHS
        &&& 0 < self.ascii_forward@.len() <= MAX_GLYPHS
        &&& 0 < self.ascii_back@.len() <= MAX_GLYPHS
    }

    /// A converter for `w` by `h` images with the given glyph families,
    /// threshold (0 to 255 magnitude scale), contrast and brightness (both in
    /// hundredths). Fails when a family is empty or longer than `MAX_GLYPHS`,
    /// or when a dimension is zero or `w * h * 3` exceeds `usize::MAX`.
    pub fn new(
        ascii_intensity: Vec<char>,
        ascii_horizontal: Vec<char>,
        ascii_vertical: Vec<char>,
        ascii_forward: Vec<char>,
        ascii_back: Vec<char>,
        w: usize,
        h: usize,
        edge_threshold: u32,
        contrast: u32,
        brightness: i32,
    ) -> (r: Result<Self, ConverterError>)
        ensures
            r is Ok <==> (0 < ascii_intensity@.len() <= MAX_GLYPHS && 0 < ascii_horizontal@.len()
                <= MAX_GLYPHS && 0 < ascii_vertical@.len() <= MAX_GLYPHS && 0
                < ascii_forward@.len() <= MAX_GLYPHS && 0 < ascii_back@.len() <= MAX_GLYPHS && w > 0
                && h > 0 && w * h * 3 <= usize::MAX),
            r is Err ==> (r->Err_0 == ConverterError::InvalidGlyphFamily <==> !(0
                < ascii_intensity@.len() <= MAX_GLYPHS && 0 < ascii_horizontal@.len() <= MAX_GLYPHS
                && 0 < ascii_vertical@.len() <= MAX_GLYPHS && 0 < ascii_forward@.len() <= MAX_GLYPHS
                && 0 < ascii_back@.len() <= MAX_GLYPHS)),
            r is Ok ==> r->Ok_0.wf() && r->Ok_0.config() == (ConverterConfig {
                shading: ascii_intensity@,
                horizontal: ascii_horizontal@,
                vertical: ascii_vertical@,
                forward: ascii_forward@,
                back: ascii_back@,
                threshold: edge_threshold as int,
                contrast: contrast as int,
                brightness: brightness as int,
                w: w as int,
                h: h as int,
            }),
    {
        if ascii_intensity.len() == 0 || ascii_intensity.len() > MAX_GLYPHS
            || ascii_horizontal.len() == 0 || ascii_horizontal.len() > MAX_GLYPHS
            || ascii_vertical.len() == 0 || ascii_vertical.len() > MAX_GLYPHS
            || ascii_forward.len() == 0 || ascii_forward.len() > MAX_GLYPHS || ascii_back.len() == 0
            || ascii_back.len() > MAX_GLYPHS {
            return Err(ConverterError::InvalidGlyphFamily);
        }
        if w == 0 || h == 0 {
            return Err(ConverterError::InvalidDimensions);
        }
        let n = match w.checked_mul(h) {
            Some(n) => n,
            None => {
                proof {
                    assert(w * h <= w * h * 3) by (nonlinear_arith)
                        requires
                            w * h >= 0,
                    ;
                }
                return Err(ConverterError::InvalidDimensions);
            },
        };
        if n.checked_mul(3).is_none() {
            return Err(ConverterError::InvalidDimensions);
        }
        let edge_detector = EdgeDetector::new(w, h, edge_threshold);
        Ok(AsciiConverter {
            edge_detector,
            ascii_intensity,
            ascii_horizontal,
            ascii_vertical,
            ascii_forward,
            ascii_back,
            edge_threshold,
            contrast,
            brightness,
        })
    }

    /// A converter for 640 by 480 images with printable-ASCII glyph families
    /// (so that every frame survives the one-byte-per-cell wire format),
    /// threshold 20, contrast 1.5 and brightness 0.
    pub fn default() -> (r: Result<Self, ConverterError>)
        ensures
            r is Ok,
            r->Ok_0.wf(),
            r->Ok_0.config().shading == seq![' ', '.', ':', 'c', 'o', 'P', 'O', '?', '@', '#'],
            r->Ok_0.config().horizontal == seq!['|'],
            r->Ok_0.config().vertical == seq!['-'],
            r->Ok_0.config().forward == seq!['/'],
            r->Ok_0.config().back == seq!['\\'],
            r->Ok_0.config().threshold == DEFAULT_EDGE_THRESHOLD,
            r->Ok_0.config().contrast == DEFAULT_CONTRAST,
            r->Ok_0.config().brightness == DEFAULT_BRIGHTNESS,
            r->Ok_0.config().w == DEFAULT_WIDTH,
            r->Ok_0.config().h == DEFAULT_HEIGHT,
    {
        let shading = vec![' ', '.', ':', 'c', 'o', 'P', 'O', '?', '@', '#'];
        let r = Self::new(
            shading,
            vec!['|'],
            vec!['-'],
            vec!['/'],
            vec!['\\'],
            DEFAULT_WIDTH,
            DEFAULT_HEIGHT,
            DEFAULT_EDGE_THRESHOLD,
            DEFAULT_CONTRAST,
            DEFAULT_BRIGHTNESS,
        );
        proof {
            assert(r->Ok_0.config().shading =~= seq![' ', '.', ':', 'c', 'o', 'P', 'O', '?', '@', '#']);
            assert(r->Ok_0.config().horizontal =~= seq!['|']);
            assert(r->Ok_0.config().vertical =~= seq!['-']);
            assert(r->Ok_0.config().forward =~= seq!['/']);
            assert(r->Ok_0.config().back =~= seq!['\\']);
        }
        r
    }

    /// Draws `i_frame` into `a_frame`, whatever its dimensions: each cell
    /// samples its nearest source pixel and becomes a directional glyph where
    /// the thinned edge there exceeds the threshold, else a shading glyph for
    /// the pixel's adjusted luma. Fails with `InvalidDimensions`, leaving
    /// `a_frame` unchanged, unless `i_frame` is an RGB image of the configured
    /// dimensions.
    pub fn convert(&mut self, i_frame: &ImageFrame, a_frame: &mut AsciiFrame) -> (r: Result<
        (),
        ConverterError,
    >)
        requires
            old(self).wf(),
            old(a_frame).wf(),
        ensures
            final(self).wf(),
            final(self).config() == old(self).config(),
            final(a_frame).wf(),
            final(a_frame).w == old(a_frame).w,
            final(a_frame).h == old(a_frame).h,
            r is Ok <==> (i_frame.is_rgb() && i_frame.w == old(self).config().w && i_frame.h == old(
                self,
            ).config().h),
            r is Err ==> r->Err_0 == ConverterError::InvalidDimensions && final(a_frame).chars@ == old(
                a_frame,
            ).chars@,
            r is Ok ==> final(a_frame).chars@ == Seq::new(
                (old(a_frame).w * old(a_frame).h) as nat,
                |k: int|
                    cell_char(old(self).config(), i_frame.buffer@, old(a_frame).w as int, old(a_frame).h as int, k),
            ),
            r is Ok ==> forall|k: int|
                0 <= k < final(a_frame).chars@.len() ==> in_families(
                    old(self).config(),
                    #[trigger] final(a_frame).chars@[k],
                ),
    {
        match self.edge_detector.submit_frame(i_frame) {
            Ok(()) => {},
            Err(EdgeError::InvalidDimensions) => {
                return Err(ConverterError::InvalidDimensions);
            },
        }
        let ghost cfg = self.config();
        let ghost buf = i_frame.buffer@;
        let info = self.edge_detector.get_edge_info();
        let w = i_frame.w;
        let h = i_frame.h;
        let wa = a_frame.w;
        let ha = a_frame.h;
        let n = a_frame.chars.len();
        let blen = i_frame.buffer.len();
        proof {
            assert(w * h <= w * h * 3) by (nonlinear_arith)
                requires
                    w * h >= 0,
            ;
        }
        let t: u128 = self.edge_threshold as u128 * 10000;
        proof {
            assert(t * t <= 1844674407370955161500000000) by (nonlinear_arith)
                requires
                    0 <= t <= 42949672950000,
            ;
        }
        let t2: u128 = t * t;
        let mut k: usize = 0;
        while k < n
            invariant
                self.wf(),
                self.config() == cfg,
                cfg.w == w,
                cfg.h == h,
                cfg.threshold == self.edge_threshold,
                *info == self.edge_detector.info(),
                info.describes(buf, cfg.threshold),
                info.w == w,
                info.h == h,
                buf == i_frame.buffer@,
                i_frame.is_rgb(),
                w == i_frame.w,
                h == i_frame.h,
                blen == buf.len(),
                w > 0,
                h > 0,
                w * h <= usize::MAX,
                a_frame.wf(),
                a_frame.w == wa,
                a_frame.h == ha,
                n == wa * ha,
                t2 == threshold_sq(cfg.threshold),
                k <= n,
                forall|j: int| 0 <= j < k ==> #[trigger] a_frame.chars@[j] == cell_char(cfg, buf, wa as int, ha as int, j),
            decreases n - k,
        {
            let x = k % wa;
            let y = k / wa;
            proof {
                assert(y < ha) by (nonlinear_arith)
                    requires
                        k < wa * ha,
                        y == k / wa,
                        wa > 0,
                ;
            }
            proof {
                assert((x as int) * (w as int) <= 0xFFFF_FFFF_FFFF_FFFFu128 * 0xFFFF_FFFF_FFFF_FFFFu128) by (nonlinear_arith)
                    requires
                        0 <= x <= 0xFFFF_FFFF_FFFF_FFFFu128,
                        0 <= w <= 0xFFFF_FFFF_FFFF_FFFFu128,
                ;
                assert((y as int) * (h as int) <= 0xFFFF_FFFF_FFFF_FFFFu128 * 0xFFFF_FFFF_FFFF_FFFFu128) by (nonlinear_arith)
                    requires
                        0 <= y <= 0xFFFF_FFFF_FFFF_FFFFu128,
                        0 <= h <= 0xFFFF_FFFF_FFFF_FFFFu128,
                ;
                assert((x as int) * (w as int) / (wa as int) < w) by (nonlinear_arith)
                    requires
                        0 <= x < wa,
                        w > 0,
                ;
                assert((y as int) * (h as int) / (ha as int) < h) by (nonlinear_arith)
                    requires
                        0 <= y < ha,
                        h > 0,
                ;
            }
            let sx = ((x as u128) * (w as u128) / (wa as u128)) as usize;
            let sy = ((y as u128) * (h as u128) / (ha as u128)) as usize;
            proof {
                assert((x as int) * (w as int) / (wa as int) < w) by (nonlinear_arith)
                    requires
                        0 <= x < wa,
                        w > 0,
                ;
                assert((y as int) * (h as int) / (ha as int) < h) by (nonlinear_arith)
                    requires
                        0 <= y < ha,
                        h > 0,
                ;
                assert(0 <= (x as int) * (w as int) / (wa as int)) by (nonlinear_arith)
                    requires
                        0 <= x,
                        0 <= w,
                        wa > 0,
                ;
                assert(0 <= (y as int) * (h as int) / (ha as int)) by (nonlinear_arith)
                    requires
                        0 <= y,
                        0 <= h,
                        ha > 0,
                ;
                assert(sy * w + sx < w * h) by (nonlinear_arith)
                    requires
                        sx < w,
                        sy < h,
                ;
                assert(0 <= sy * w) by (nonlinear_arith)
                    requires
                        0 <= sy,
                        0 <= w,
                ;
            }
            let e = sy * w + sx;
            assert(e as int == sample_index(w as int, h as int, wa as int, ha as int, k as int));
            let m = info.magnitude_sq[e];
            let c: char;
            if (m as u128) > t2 {
                let gxv = info.gx[e];
                let gyv = info.gy[e];
                proof {
                    lemma_sobel_bound(buf, w as int, h as int, e as int);
                }
                let o = classify(gxv, gyv);
                let fam = match o {
                    Orientation::Horizontal => &self.ascii_horizontal,
                    Orientation::Forward => &self.ascii_forward,
                    Orientation::Vertical => &self.ascii_vertical,
                    Orientation::Back => &self.ascii_back,
                };
                assert(fam@ == crate::ascii_converter::family(cfg, o));
                let lv = edge_level_exec(m, fam.len());
                c = fam[lv];
            } else {
                proof {
                    assert(3 * e + 2 < blen) by (nonlinear_arith)
                        requires
                            e < w * h,
                            blen == w * h * 3,
                    ;
                }
                let r = adjust_channel_exec(i_frame.buffer[3 * e], self.contrast, self.brightness);
                let g = adjust_channel_exec(i_frame.buffer[3 * e + 1], self.contrast, self.brightness);
                let b = adjust_channel_exec(i_frame.buffer[3 * e + 2], self.contrast, self.brightness);
                let l = ImageFrame::calculate_intensity_u8((r, g, b));
                let lv = shade_level_exec(l, self.ascii_intensity.len());
                c = self.ascii_intensity[lv];
            }
            a_frame.chars.set(k, c);
            k = k + 1;
        }
        proof {
            assert(a_frame.chars@ =~= Seq::new(
                (wa * ha) as nat,
                |j: int| cell_char(cfg, buf, wa as int, ha as int, j),
            ));
            assert forall|j: int| 0 <= j < a_frame.chars@.len() implies in_families(
                cfg,
                #[trigger] a_frame.chars@[j],
            ) by {
                lemma_cell_in_families(cfg, buf, wa as int, ha as int, j);
            }
        }
        Ok(())
    }
}

/// Sobel responses lie within four times the largest luma.
proof fn lemma_sobel_bound(buf: Seq<u8>, w: int, h: int, j: int)
    requires
        w > 0,
        h > 0,
        buf.len() == w * h * 3,
        0 <= j < w * h,
    ensures
        -4 * MAX_LUMA_SCALED <= gx_at(buf, w, h, j) <= 4 * MAX_LUMA_SCALED,
        -4 * MAX_LUMA_SCALED <= gy_at(buf, w, h, j) <= 4 * MAX_LUMA_SCALED,
{
    if crate::edge_detector::is_interior(w, h, j) {
        crate::edge_detector::lemma_interior_bounds(buf, w, h, j);
    }
}

} // verus!
