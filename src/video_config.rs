use vstd::prelude::*;

use crate::ascii_converter::{DEFAULT_BRIGHTNESS, DEFAULT_CONTRAST, DEFAULT_HEIGHT, DEFAULT_WIDTH};
use crate::edge_detector::DEFAULT_EDGE_THRESHOLD;

verus! {

/// Default number of ASCII columns.
pub const DEFAULT_ASCII_WIDTH: usize = 120;

/// Default number of ASCII rows.
pub const DEFAULT_ASCII_HEIGHT: usize = 40;

/// Camera and ASCII dimensions with the conversion settings.
pub struct VideoConfig {
    pub camera_width: usize,
    pub camera_height: usize,
    pub ascii_width: usize,
    pub ascii_height: usize,
    /// Edge threshold on the 0 to 255 magnitude scale.
    pub edge_threshold: u32,
    /// Contrast, in hundredths.
    pub contrast: u32,
    /// Brightness, in hundredths.
    pub brightness: i32,
}

impl VideoConfig {
    /// 640 by 480 camera, 120 by 40 characters, threshold 20, contrast 1.5,
    /// brightness 0.
    pub fn default() -> (r: Self)
        ensures
            r.camera_width == DEFAULT_WIDTH,
            r.camera_height == DEFAULT_HEIGHT,
            r.ascii_width == DEFAULT_ASCII_WIDTH,
            r.ascii_height == DEFAULT_ASCII_HEIGHT,
            r.edge_threshold == DEFAULT_EDGE_THRESHOLD,
            r.contrast == DEFAULT_CONTRAST,
            r.brightness == DEFAULT_BRIGHTNESS,
    {
        VideoConfig {
            camera_width: DEFAULT_WIDTH,
            camera_height: DEFAULT_HEIGHT,
            ascii_width: DEFAULT_ASCII_WIDTH,
            ascii_height: DEFAULT_ASCII_HEIGHT,
            edge_threshold: DEFAULT_EDGE_THRESHOLD,
            contrast: DEFAULT_CONTRAST,
            brightness: DEFAULT_BRIGHTNESS,
        }
    }

    /// A configuration with the given values.
    pub fn new(
        camera_width: usize,
        camera_height: usize,
        ascii_width: usize,
        ascii_height: usize,
        edge_threshold: u32,
        contrast: u32,
        brightness: i32,
    ) -> (r: Self)
        ensures
            r.camera_width == camera_width,
            r.camera_height == camera_height,
            r.ascii_width == ascii_width,
            r.ascii_height == ascii_height,
            r.edge_threshold == edge_threshold,
            r.contrast == contrast,
            r.brightness == brightness,
    {
        VideoConfig {
            camera_width,
            camera_height,
            ascii_width,
            ascii_height,
            edge_threshold,
            contrast,
            brightness,
        }
    }
}

} // verus!
