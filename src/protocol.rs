use vstd::prelude::*;

use crate::ascii_frame::{AsciiFrame, FrameError};
use crate::sessions::PeerAddr;

verus! {

#[verifier::external_type_specification]
#[verifier::external_body]
pub struct ExInstant(std::time::Instant);

/// Relies on `std::time::Instant::now`: a reading of the monotonic clock.
pub assume_specification[ std::time::Instant::now ]() -> std::time::Instant;

/// Relies on `std::time::Instant::elapsed`: the time since a reading.
pub assume_specification[ std::time::Instant::elapsed ](i: &std::time::Instant) -> core::time::Duration;

/// Relies on `core::time::Duration::as_micros`: a duration in whole microseconds.
pub assume_specification[ core::time::Duration::as_micros ](d: &core::time::Duration) -> u128;

/// A frame as carried in a message: dimensions, a timestamp and the cells.
pub struct VideoFrame {
    /// Width of the frame.
    pub w: usize,
    /// Height of the frame.
    pub h: usize,
    /// Microseconds, for latency measurement.
    pub timestamp: u64,
    /// The cells, row by row.
    pub data: Vec<char>,
}

impl VideoFrame {
    /// The frame's dimensions and cells, stamped with the clock.
    pub fn from_ascii_frame(frame: &AsciiFrame) -> (r: VideoFrame)
        ensures
            r.w == frame.w,
            r.h == frame.h,
            r.data@ == frame.chars@,
    {
        let now = std::time::Instant::now();
        let micros = now.elapsed().as_micros();
        let timestamp: u64 = #[verifier::truncate] (micros as u64);
        VideoFrame {
            w: frame.w,
            h: frame.h,
            timestamp,
            data: vstd::slice::slice_to_vec(frame.chars()),
        }
    }

    /// A `w` by `h` frame whose cell `i` is `data[i]`, or a space past the end
    /// of `data`; fails when a dimension is zero.
    pub fn to_ascii_frame(&self) -> (r: Result<AsciiFrame, FrameError>)
        requires
            self.w * self.h <= usize::MAX,
        ensures
            r is Err <==> (self.w == 0 || self.h == 0),
            r is Err ==> r->Err_0 == FrameError::ZeroDimension,
            r is Ok ==> {
                let f = r->Ok_0;
                &&& f.wf()
                &&& f.w == self.w
                &&& f.h == self.h
                &&& f.chars@ == Seq::new(
                    (self.w * self.h) as nat,
                    |i: int|
                        if i < self.data@.len() {
                            self.data@[i]
                        } else {
                            ' '
                        },
                )
            },
    {
        let mut frame = match AsciiFrame::new(self.w, self.h, ' ') {
            Ok(f) => f,
            Err(e) => {
                return Err(e);
            },
        };
        let n = self.w * self.h;
        let mut i: usize = 0;
        while i < n
            invariant
                frame.wf(),
                frame.w == self.w,
                frame.h == self.h,
                n == self.w * self.h,
                i <= n,
                forall|j: int|
                    0 <= j < n ==> #[trigger] frame.chars@[j] == if j < i && j < self.data@.len() {
                        self.data@[j]
                    } else {
                        ' '
                    },
            decreases n - i,
        {
            if i < self.data.len() {
                frame.chars.set(i, self.data[i]);
            }
            i = i + 1;
        }
        assert(frame.chars@ =~= Seq::new(
            (self.w * self.h) as nat,
            |i: int|
                if i < self.data@.len() {
                    self.data@[i]
                } else {
                    ' '
                },
        ));
        Ok(frame)
    }
}

/// Presence of a user.
#[derive(PartialEq, Eq, Structural, Clone, Copy, Debug)]
pub enum UserStatus {
    Online,
    InCall,
    Offline,
}

/// A user known to the server.
pub struct User {
    pub username: String,
    pub address: PeerAddr,
    pub status: UserStatus,
}

} // verus!
