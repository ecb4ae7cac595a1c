use vstd::prelude::*;

verus! {

/// The character that a byte stands for on the wire: the code point with the
/// byte's value.
pub open spec fn byte_char(b: u8) -> char {
    (b as u32) as char
}

/// The byte that a character is sent as: the low 8 bits of its code point.
pub open spec fn char_byte(c: char) -> u8 {
    ((c as u32) % 256) as u8
}

/// The characters that a byte sequence stands for, one per byte.
pub open spec fn bytes_to_chars(b: Seq<u8>) -> Seq<char> {
    Seq::new(b.len(), |i: int| byte_char(b[i]))
}

/// The bytes that a character sequence is sent as, one per character.
pub open spec fn chars_to_bytes(c: Seq<char>) -> Seq<u8> {
    Seq::new(c.len(), |i: int| char_byte(c[i]))
}

/// A printable ASCII character (space through tilde).
pub open spec fn is_printable_ascii(c: char) -> bool {
    0x20 <= c as u32 && c as u32 <= 0x7E
}

/// Why a frame could not be built.
#[derive(PartialEq, Eq, Structural, Clone, Copy, Debug)]
pub enum FrameError {
    /// The width or the height is zero.
    ZeroDimension,
    /// Fewer than `w * h` cells of data were given.
    NotEnoughData,
}

/// A grid of characters, stored row by row.
#[derive(Clone, Debug)]
pub struct AsciiFrame {
    /// Number of columns.
    pub w: usize,
    /// Number of rows.
    pub h: usize,
    /// The cells, row by row (`w * h` of them).
    pub chars: Vec<char>,
}

impl AsciiFrame {
    /// Dimensions are positive and the storage holds exactly `w * h` cells.
    pub open spec fn wf(&self) -> bool {
        &&& self.w > 0
        &&& self.h > 0
        &&& self.chars@.len() == self.w * self.h
    }

    /// A `w` by `h` frame filled with `default_char`; fails when a dimension is zero.
    pub fn new(w: usize, h: usize, default_char: char) -> (r: Result<Self, FrameError>)
        requires
            w * h <= usize::MAX,
        ensures
            r is Err <==> (w == 0 || h == 0),
            r is Err ==> r->Err_0 == FrameError::ZeroDimension,
            r is Ok ==> {
                let f = r->Ok_0;
                &&& f.wf()
                &&& f.w == w
                &&& f.h == h
                &&& f.chars@ == Seq::new((w * h) as nat, |i: int| default_char)
            },
    {
        if w == 0 || h == 0 {
            return Err(FrameError::ZeroDimension);
        }
        let chars = vec![default_char; w * h];
        Ok(AsciiFrame { w, h, chars })
    }

    /// A `w` by `h` frame whose cells are the first `w * h` bytes of `bytes`, each
    /// read as one character; bytes past those are ignored.
    pub fn from_bytes(w: usize, h: usize, bytes: &[u8]) -> (r: Result<Self, FrameError>)
        ensures
            r is Err <==> (w == 0 || h == 0 || bytes@.len() < w * h),
            (w == 0 || h == 0) ==> r == Err::<Self, FrameError>(FrameError::ZeroDimension),
            (w > 0 && h > 0 && bytes@.len() < w * h) ==> r == Err::<Self, FrameError>(
                FrameError::NotEnoughData,
            ),
            r is Ok ==> {
                let f = r->Ok_0;
                &&& f.wf()
                &&& f.w == w
                &&& f.h == h
                &&& f.chars@ == bytes_to_chars(bytes@.take(w * h))
            },
    {
        if w == 0 || h == 0 {
            return Err(FrameError::ZeroDimension);
        }
        let len = bytes.len();
        let n = match w.checked_mul(h) {
            Some(n) => n,
            None => {
                assert(bytes@.len() < w * h) by (nonlinear_arith)
                    requires
                        w * h > usize::MAX,
                        bytes@.len() == len,
                ;
                return Err(FrameError::NotEnoughData);
            },
        };
        if len < n {
            return Err(FrameError::NotEnoughData);
        }
        let mut chars: Vec<char> = Vec::with_capacity(n);
        let mut i: usize = 0;
        while i < n
            invariant
                n == w * h,
                n <= bytes@.len(),
                i <= n,
                chars@ == bytes_to_chars(bytes@.take(i as int)),
            decreases n - i,
        {
            chars.push(bytes[i] as char);
            i = i + 1;
            assert(chars@ =~= bytes_to_chars(bytes@.take(i as int)));
        }
        Ok(AsciiFrame { w, h, chars })
    }

    /// Puts `c` at column `x` of row `y`; returns false, changing nothing, when
    /// the position lies outside the frame.
    pub fn set_char(&mut self, x: usize, y: usize, c: char) -> (r: bool)
        requires
            old(self).wf(),
        ensures
            final(self).wf(),
            final(self).w == old(self).w,
            final(self).h == old(self).h,
            r == (x < old(self).w && y < old(self).h),
            r ==> final(self).chars@ == old(self).chars@.update(y * old(self).w + x, c),
            !r ==> final(self).chars@ == old(self).chars@,
    {
        if x >= self.w || y >= self.h {
            return false;
        }
        let len = self.chars.len();
        proof {
            lemma_cell_index(self.w as int, self.h as int, x as int, y as int);
            assert(y * self.w <= y * self.w + x);
        }
        let i = y * self.w + x;
        self.chars.set(i, c);
        true
    }

    /// Replaces the first `data.len()` cells by `data`; returns false, changing
    /// nothing, when `data` is longer than the frame.
    pub fn set_chars(&mut self, data: &[char]) -> (r: bool)
        requires
            old(self).wf(),
        ensures
            final(self).wf(),
            final(self).w == old(self).w,
            final(self).h == old(self).h,
            r == (data@.len() <= old(self).chars@.len()),
            r ==> final(self).chars@ == data@ + old(self).chars@.skip(data@.len() as int),
            !r ==> final(self).chars@ == old(self).chars@,
    {
        if data.len() > self.chars.len() {
            return false;
        }
        let ghost orig = self.chars@;
        let mut i: usize = 0;
        while i < data.len()
            invariant
                self.wf(),
                self.w == old(self).w,
                self.h == old(self).h,
                orig == old(self).chars@,
                orig.len() == self.chars@.len(),
                data@.len() <= self.chars@.len(),
                i <= data@.len(),
                self.chars@ == data@.take(i as int) + orig.skip(i as int),
            decreases data@.len() - i,
        {
            self.chars.set(i, data[i]);
            i = i + 1;
            assert(self.chars@ =~= data@.take(i as int) + orig.skip(i as int));
        }
        assert(data@.take(i as int) =~= data@);
        true
    }

    /// Replaces the first `bytes.len()` cells by the characters that `bytes`
    /// stand for; returns false, changing nothing, when `bytes` is longer than
    /// the frame.
    pub fn set_chars_from_bytes(&mut self, bytes: &[u8]) -> (r: bool)
        requires
            old(self).wf(),
        ensures
            final(self).wf(),
            final(self).w == old(self).w,
            final(self).h == old(self).h,
            r == (bytes@.len() <= old(self).chars@.len()),
            r ==> final(self).chars@ == bytes_to_chars(bytes@) + old(self).chars@.skip(
                bytes@.len() as int,
            ),
            !r ==> final(self).chars@ == old(self).chars@,
    {
        if bytes.len() > self.chars.len() {
            return false;
        }
        let ghost orig = self.chars@;
        let mut i: usize = 0;
        while i < bytes.len()
            invariant
                orig == old(self).chars@,
                orig.len() == self.chars@.len(),
                self.wf(),
                self.w == old(self).w,
                self.h == old(self).h,
                bytes@.len() <= self.chars@.len(),
                i <= bytes@.len(),
                self.chars@ == bytes_to_chars(bytes@.take(i as int)) + orig.skip(i as int),
            decreases bytes@.len() - i,
        {
            self.chars.set(i, bytes[i] as char);
            i = i + 1;
            assert(self.chars@ =~= bytes_to_chars(bytes@.take(i as int)) + orig.skip(i as int));
        }
        assert(bytes@.take(i as int) =~= bytes@);
        true
    }

    /// As `set_chars`, taking the data by value.
    pub fn set_chars_from_vec(&mut self, data: Vec<char>) -> (r: bool)
        requires
            old(self).wf(),
        ensures
            final(self).wf(),
            final(self).w == old(self).w,
            final(self).h == old(self).h,
            r == (data@.len() <= old(self).chars@.len()),
            r ==> final(self).chars@ == data@ + old(self).chars@.skip(data@.len() as int),
            !r ==> final(self).chars@ == old(self).chars@,
    {
        self.set_chars(data.as_slice())
    }

    /// The cells, row by row.
    pub fn chars(&self) -> (r: &[char])
        ensures
            r@ == self.chars@,
    {
        self.chars.as_slice()
    }

    /// The wire bytes of the cells: the low 8 bits of each character.
    pub fn bytes(&self) -> (r: Vec<u8>)
        ensures
            r@ == chars_to_bytes(self.chars@),
    {
        let mut bytes: Vec<u8> = Vec::with_capacity(self.chars.len());
        let mut i: usize = 0;
        while i < self.chars.len()
            invariant
                i <= self.chars@.len(),
                bytes@ == chars_to_bytes(self.chars@.take(i as int)),
            decreases self.chars@.len() - i,
        {
            let c = self.chars[i];
            bytes.push(((c as u32) % 256) as u8);
            i = i + 1;
            assert(bytes@ =~= chars_to_bytes(self.chars@.take(i as int)));
        }
        assert(self.chars@.take(i as int) =~= self.chars@);
        bytes
    }
}

/// A cell position inside a `w` by `h` grid has a row-major index below `w * h`.
pub proof fn lemma_cell_index(w: int, h: int, x: int, y: int)
    requires
        0 <= x < w,
        0 <= y < h,
    ensures
        0 <= y * w + x < w * h,
{
    assert(y * w + x < w * h) by (nonlinear_arith)
        requires
            0 <= x < w,
            0 <= y < h,
    ;
    assert(0 <= y * w) by (nonlinear_arith)
        requires
            0 <= y,
            0 <= w,
    ;
}

} // verus!
