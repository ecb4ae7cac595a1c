use vstd::prelude::*;

use crate::ascii_frame::AsciiFrame;

verus! {

/// Test patterns for local runs without a camera.
#[derive(PartialEq, Eq, Structural, Clone, Copy, Debug)]
pub enum PatternType {
    Checkerboard,
    MovingLine,
}

/// Why a generator could not be made.
#[derive(PartialEq, Eq, Structural, Clone, Copy, Debug)]
pub enum MockError {
    /// A dimension or the frame rate is zero, or `w * h` exceeds `usize::MAX`.
    InvalidParameters,
}

/// Cell `(x, y)` of the checkerboard after `counter` frames: the squares swap
/// every five frames.
pub open spec fn checker_char(x: int, y: int, counter: int) -> char {
    if ((x + y) % 2 + (counter / 5) % 2) % 2 == 0 {
        '.'
    } else {
        '#'
    }
}

/// Cell in row `y` of the moving line after `counter` frames of height `h`.
pub open spec fn line_char(y: int, counter: int, h: int) -> char {
    if y == counter % h {
        '='
    } else {
        ' '
    }
}

/// Makes synthetic frames, one pattern step per frame.
pub struct MockFrameGenerator {
    w: usize,
    h: usize,
    frame_counter: usize,
    frame_delay_ms: u64,
    pattern_type: PatternType,
}

impl MockFrameGenerator {
    /// Width of the frames made.
    pub closed spec fn width(&self) -> nat {
        self.w as nat
    }

    /// Height of the frames made.
    pub closed spec fn height(&self) -> nat {
        self.h as nat
    }

    /// Frames made so far (modulo the word size).
    pub closed spec fn counter(&self) -> nat {
        self.frame_counter as nat
    }

    /// The pattern drawn.
    pub closed spec fn pattern(&self) -> PatternType {
        self.pattern_type
    }

    /// Milliseconds between two frames.
    pub closed spec fn delay_ms(&self) -> nat {
        self.frame_delay_ms as nat
    }

    /// Positive dimensions whose product fits in `usize`.
    pub closed spec fn wf(&self) -> bool {
        self.w > 0 && self.h > 0 && self.w * self.h <= usize::MAX
    }

    /// A generator of `w` by `h` frames at `fps` frames per second; fails
    /// when a dimension or `fps` is zero, or `w * h` exceeds `usize::MAX`.
    pub fn new(w: usize, h: usize, fps: u32, pattern_type: PatternType) -> (r: Result<Self, MockError>)
        ensures
            r is Err <==> (w == 0 || h == 0 || fps < 1 || w * h > usize::MAX),
            r is Ok ==> {
                let g = r->Ok_0;
                &&& g.wf()
                &&& g.width() == w
                &&& g.height() == h
                &&& g.counter() == 0
                &&& g.pattern() == pattern_type
                &&& g.delay_ms() == 1000int / (fps as int)
            },
    {
        if w == 0 || h == 0 || fps < 1 {
            return Err(MockError::InvalidParameters);
        }
        if w.checked_mul(h).is_none() {
            return Err(MockError::InvalidParameters);
        }
        let frame_delay_ms = (1000 / fps) as u64;
        Ok(MockFrameGenerator { w, h, frame_counter: 0, frame_delay_ms, pattern_type })
    }

    /// Milliseconds between two frames.
    pub fn frame_delay_ms(&self) -> (r: u64)
        ensures
            r == self.delay_ms(),
    {
        self.frame_delay_ms
    }

    /// The next frame of the pattern; the step counter advances.
    pub fn generate_frame(&mut self) -> (r: AsciiFrame)
        requires
            old(self).wf(),
        ensures
            final(self).wf(),
            final(self).width() == old(self).width(),
            final(self).height() == old(self).height(),
            final(self).pattern() == old(self).pattern(),
            final(self).delay_ms() == old(self).delay_ms(),
            final(self).counter() == (old(self).counter() + 1) % (usize::MAX as nat + 1),
            r.wf(),
            r.w == old(self).width(),
            r.h == old(self).height(),
            old(self).pattern() == PatternType::Checkerboard ==> r.chars@ == Seq::new(
                (r.w * r.h) as nat,
                |k: int| checker_char(k % r.w as int, k / r.w as int, old(self).counter() as int),
            ),
            old(self).pattern() == PatternType::MovingLine ==> r.chars@ == Seq::new(
                (r.w * r.h) as nat,
                |k: int| line_char(k / r.w as int, old(self).counter() as int, r.h as int),
            ),
    {
        let mut frame = match AsciiFrame::new(self.w, self.h, ' ') {
            Ok(f) => f,
            Err(_) => {
                assert(false);
                return AsciiFrame { w: 1, h: 1, chars: vec![' '] };
            },
        };
        match self.pattern_type {
            PatternType::Checkerboard => self.generate_checkerboard(&mut frame),
            PatternType::MovingLine => self.generate_moving_line(&mut frame),
        }
        self.frame_counter = self.frame_counter.wrapping_add(1);
        frame
    }

    /// Fills `frame` with the checkerboard at the current step.
    pub fn generate_checkerboard(&self, frame: &mut AsciiFrame)
        requires
            old(frame).wf(),
            old(frame).w == self.width(),
            old(frame).h == self.height(),
        ensures
            final(frame).wf(),
            final(frame).w == old(frame).w,
            final(frame).h == old(frame).h,
            final(frame).chars@ == Seq::new(
                (old(frame).w * old(frame).h) as nat,
                |k: int| checker_char(k % old(frame).w as int, k / old(frame).w as int, self.counter() as int),
            ),
    {
        let w = frame.w;
        let n = frame.chars.len();
        let offset = (self.frame_counter / 5) % 2;
        let mut k: usize = 0;
        while k < n
            invariant
                frame.wf(),
                frame.w == w,
                frame.h == old(frame).h,
                n == frame.chars@.len(),
                offset == (self.counter() / 5) % 2,
                k <= n,
                forall|j: int| 0 <= j < k ==> #[trigger] frame.chars@[j] == checker_char(j % w as int, j / w as int, self.counter() as int),
            decreases n - k,
        {
            let x = k % w;
            let y = k / w;
            proof {
                assert(x + y <= k) by (nonlinear_arith)
                    requires
                        x == k % w,
                        y == k / w,
                        w >= 1,
                ;
            }
            let c = if ((x + y) % 2 + offset) % 2 == 0 {
                '.'
            } else {
                '#'
            };
            frame.chars.set(k, c);
            k = k + 1;
        }
        assert(frame.chars@ =~= Seq::new(
            (old(frame).w * old(frame).h) as nat,
            |k: int| checker_char(k % old(frame).w as int, k / old(frame).w as int, self.counter() as int),
        ));
    }

    /// Fills `frame` with the moving line at the current step.
    pub fn generate_moving_line(&self, frame: &mut AsciiFrame)
        requires
            old(frame).wf(),
            old(frame).w == self.width(),
            old(frame).h == self.height(),
        ensures
            final(frame).wf(),
            final(frame).w == old(frame).w,
            final(frame).h == old(frame).h,
            final(frame).chars@ == Seq::new(
                (old(frame).w * old(frame).h) as nat,
                |k: int| line_char(k / old(frame).w as int, self.counter() as int, old(frame).h as int),
            ),
    {
        let w = frame.w;
        let n = frame.chars.len();
        let line_pos = self.frame_counter % frame.h;
        let mut k: usize = 0;
        while k < n
            invariant
                frame.wf(),
                frame.w == w,
                frame.h == old(frame).h,
                n == frame.chars@.len(),
                line_pos == (self.counter() as int) % (frame.h as int),
                k <= n,
                forall|j: int| 0 <= j < k ==> #[trigger] frame.chars@[j] == line_char(j / w as int, self.counter() as int, frame.h as int),
            decreases n - k,
        {
            let y = k / w;
            let c = if y == line_pos {
                '='
            } else {
                ' '
            };
            frame.chars.set(k, c);
            k = k + 1;
        }
        assert(frame.chars@ =~= Seq::new(
            (old(frame).w * old(frame).h) as nat,
            |k: int| line_char(k / old(frame).w as int, self.counter() as int, old(frame).h as int),
        ));
    }
}

} // verus!
