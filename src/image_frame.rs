use vstd::prelude::*;

verus! {

/// Red weight of the BT.601 luma, in ten-thousandths.
pub const R_LUMINANCE: u32 = 2989;

/// Green weight of the BT.601 luma, in ten-thousandths.
pub const G_LUMINANCE: u32 = 5870;

/// Blue weight of the BT.601 luma, in ten-thousandths.
pub const B_LUMINANCE: u32 = 1140;

/// Luma of a pixel in ten-thousandths: `0.2989 R + 0.5870 G + 0.1140 B`, times 10000.
pub open spec fn luma_scaled(r: u8, g: u8, b: u8) -> int {
    2989 * r + 5870 * g + 1140 * b
}

/// Luma of a pixel, rounded down to a whole number on the 0 to 255 scale.
pub open spec fn luma(r: u8, g: u8, b: u8) -> int {
    luma_scaled(r, g, b) / 10000
}

/// Why an image frame could not be made.
#[derive(PartialEq, Eq, Structural, Clone, Copy, Debug)]
pub enum ImageError {
    /// The width, the height or the bytes per pixel is zero.
    ZeroDimension,
}

/// A raw image: `w * h` pixels of `bytes_per_pixel` bytes each, row by row.
pub struct ImageFrame {
    /// Width in pixels.
    pub w: usize,
    /// Height in pixels.
    pub h: usize,
    /// Bytes per pixel (3 for RGB).
    pub bytes_per_pixel: usize,
    /// The pixel data.
    pub buffer: Vec<u8>,
}

impl ImageFrame {
    /// Positive dimensions and a buffer of exactly `w * h * bytes_per_pixel` bytes.
    pub open spec fn wf(&self) -> bool {
        &&& self.w > 0
        &&& self.h > 0
        &&& self.bytes_per_pixel > 0
        &&& self.buffer@.len() == self.w * self.h * self.bytes_per_pixel
    }

    /// Positive dimensions, three bytes per pixel, and a buffer of exactly
    /// `w * h * 3` bytes.
    pub open spec fn is_rgb(&self) -> bool {
        &&& self.wf()
        &&& self.bytes_per_pixel == 3
    }

    /// Offset of the first byte of pixel `(x, y)`.
    pub open spec fn pixel_offset(&self, x: int, y: int) -> int {
        (y * self.w + x) * self.bytes_per_pixel
    }

    /// The pixel at `(x, y)`, when the position is in the frame and its three
    /// bytes are in the buffer.
    pub open spec fn pixel(&self, x: int, y: int) -> Option<(u8, u8, u8)> {
        let i = self.pixel_offset(x, y);
        if 0 <= x < self.w && 0 <= y < self.h && i + 2 < self.buffer@.len() {
            Some((self.buffer@[i], self.buffer@[i + 1], self.buffer@[i + 2]))
        } else {
            None
        }
    }

    /// A black `w` by `h` image; fails when a dimension is zero.
    pub fn new(w: usize, h: usize, bytes_per_pixel: usize) -> (r: Result<Self, ImageError>)
        requires
            w * h * bytes_per_pixel <= usize::MAX,
        ensures
            r is Err <==> (w == 0 || h == 0 || bytes_per_pixel == 0),
            r is Err ==> r->Err_0 == ImageError::ZeroDimension,
            r is Ok ==> {
                let f = r->Ok_0;
                &&& f.wf()
                &&& f.w == w
                &&& f.h == h
                &&& f.bytes_per_pixel == bytes_per_pixel
                &&& f.buffer@ == Seq::new((w * h * bytes_per_pixel) as nat, |i: int| 0u8)
            },
    {
        if w == 0 || h == 0 || bytes_per_pixel == 0 {
            return Err(ImageError::ZeroDimension);
        }
        proof {
            assert(w * h <= w * h * bytes_per_pixel) by (nonlinear_arith)
                requires
                    bytes_per_pixel >= 1,
                    w * h >= 0,
            ;
        }
        let buffer = vec![0u8; w * h * bytes_per_pixel];
        Ok(ImageFrame { w, h, bytes_per_pixel, buffer })
    }

    /// The raw pixel data.
    pub fn buffer(&self) -> (r: &[u8])
        ensures
            r@ == self.buffer@,
    {
        self.buffer.as_slice()
    }

    /// Replaces the pixel data by `data`, which must be as long as the buffer;
    /// returns false, changing nothing, otherwise.
    pub fn fill_from(&mut self, data: &[u8]) -> (r: bool)
        ensures
            r == (data@.len() == old(self).buffer@.len()),
            r ==> final(self).buffer@ == data@,
            !r ==> final(self).buffer@ == old(self).buffer@,
            final(self).w == old(self).w,
            final(self).h == old(self).h,
            final(self).bytes_per_pixel == old(self).bytes_per_pixel,
    {
        if data.len() != self.buffer.len() {
            return false;
        }
        let ghost orig = self.buffer@;
        let mut i: usize = 0;
        while i < data.len()
            invariant
                orig == old(self).buffer@,
                orig.len() == self.buffer@.len(),
                self.w == old(self).w,
                self.h == old(self).h,
                self.bytes_per_pixel == old(self).bytes_per_pixel,
                data@.len() == self.buffer@.len(),
                i <= data@.len(),
                self.buffer@ == data@.take(i as int) + orig.skip(i as int),
            decreases data@.len() - i,
        {
            self.buffer.set(i, data[i]);
            i = i + 1;
            assert(self.buffer@ =~= data@.take(i as int) + orig.skip(i as int));
        }
        assert(data@.take(i as int) =~= data@);
        assert(orig.skip(i as int) =~= Seq::<u8>::empty());
        assert(self.buffer@ =~= data@);
        true
    }

    /// The red, green and blue bytes of pixel `(x, y)`, or `None` when the
    /// position lies outside the frame or the buffer.
    pub fn get_pixel(&self, x: usize, y: usize) -> (r: Option<(u8, u8, u8)>)
        requires
            self.wf(),
        ensures
            r == self.pixel(x as int, y as int),
    {
        if x >= self.w || y >= self.h {
            return None;
        }
        let len = self.buffer.len();
        proof {
            assert(y * self.w + x < self.w * self.h) by (nonlinear_arith)
                requires
                    x < self.w,
                    y < self.h,
            ;
            assert(0 <= y * self.w) by (nonlinear_arith)
                requires
                    0 <= y,
                    0 <= self.w,
            ;
            assert((y * self.w + x) * self.bytes_per_pixel <= self.w * self.h
                * self.bytes_per_pixel) by (nonlinear_arith)
                requires
                    y * self.w + x < self.w * self.h,
                    0 <= y * self.w + x,
                    self.bytes_per_pixel > 0,
            ;
            assert(self.w * self.h <= self.w * self.h * self.bytes_per_pixel) by (nonlinear_arith)
                requires
                    self.bytes_per_pixel > 0,
                    self.w * self.h >= 0,
            ;
            assert(y * self.w + x <= (y * self.w + x) * self.bytes_per_pixel) by (nonlinear_arith)
                requires
                    self.bytes_per_pixel > 0,
                    y * self.w + x >= 0,
            ;
        }
        let i =(y * self.w + x) * self.bytes_per_pixel;
        if i >= len || len - i <= 2 {
            return None;
        }
        Some((self.buffer[i], self.buffer[i + 1], self.buffer[i + 2]))
    }

    /// Luma of a pixel on the 0 to 255 scale, rounded down.
    pub fn calculate_intensity_u8(rgb: (u8, u8, u8)) -> (r: u8)
        ensures
            r as int == luma(rgb.0, rgb.1, rgb.2),
    {
        let (red, green, blue) = rgb;
        let s: u32 = R_LUMINANCE * (red as u32) + G_LUMINANCE * (green as u32) + B_LUMINANCE * (
        blue as u32);
        (s / 10000) as u8
    }
}

} // verus!
