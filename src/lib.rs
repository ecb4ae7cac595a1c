//! Two-party ASCII video conferencing through a selective forwarding unit.
//!
//! - `ascii_frame`, `image_frame`: character and pixel grids.
//! - `edge_detector`, `ascii_converter`: Sobel gradients, non-maximum
//!   suppression and the image-to-characters conversion, computed exactly on
//!   integers (luma in ten-thousandths, squared magnitudes, contrast and
//!   brightness in hundredths).
//! - `renderer`: the differential terminal painter and the datagram format.
//! - `sessions`, `session_laws`: the session registry of the forwarding unit,
//!   its invariant, and the laws it obeys.
//! - `control`: the reliable-channel command and reply lines.
//! - `protocol`, `mock_frame_generator`, `camera_list`, `video_config`,
//!   `logger`, `network`, `menu`: smaller pieces of the client and server.

use vstd::prelude::*;

pub mod ascii_frame;
pub mod image_frame;
pub mod sessions;
pub mod session_laws;
pub mod renderer;
pub mod edge_detector;
pub mod ascii_converter;
pub mod control;
pub mod protocol;
pub mod mock_frame_generator;
pub mod network;
pub mod logger;
pub mod menu;
pub mod camera_list;
pub mod video_config;

verus! {

} // verus!
