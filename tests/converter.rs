use ascii_chat::ascii_converter::{AsciiConverter, ConverterError};
use ascii_chat::ascii_frame::AsciiFrame;
use ascii_chat::edge_detector::{classify, EdgeDetector, EdgeError, Orientation};
use ascii_chat::image_frame::ImageFrame;

fn gray_image(w: usize, h: usize, v: u8) -> ImageFrame {
    let mut img = ImageFrame::new(w, h, 3).unwrap();
    assert!(img.fill_from(&vec![v; w * h * 3]));
    img
}

fn families() -> (Vec<char>, Vec<char>, Vec<char>, Vec<char>, Vec<char>) {
    (
        " .:coPO?@#".chars().collect(),
        vec!['|'],
        vec!['-'],
        vec!['/'],
        vec!['\\'],
    )
}

fn converter(w: usize, h: usize, threshold: u32, contrast: u32, brightness: i32) -> AsciiConverter {
    let (s, hz, v, f, b) = families();
    AsciiConverter::new(s, hz, v, f, b, w, h, threshold, contrast, brightness).unwrap()
}

#[test]
fn sobel_zero_input_gives_zero_magnitude_and_first_shading_glyph() {
    let img = gray_image(8, 6, 0);
    let info = EdgeDetector::process_frame(&img, 20);
    assert!(info.magnitude_sq.iter().all(|&m| m == 0));
    assert!(info.gx.iter().all(|&g| g == 0));
    let mut conv = AsciiConverter::default().unwrap();
    let black = gray_image(640, 480, 0);
    let mut out = AsciiFrame::new(12, 5, '?').unwrap();
    conv.convert(&black, &mut out).unwrap();
    assert!(out.chars().iter().all(|&c| c == ' '));
}

#[test]
fn vertical_step_edge_gives_vertical_strokes() {
    let (w, h) = (6usize, 5usize);
    let mut img = ImageFrame::new(w, h, 3).unwrap();
    let mut data = vec![0u8; w * h * 3];
    for y in 0..h {
        for x in 3..w {
            for c in 0..3 {
                data[(y * w + x) * 3 + c] = 255;
            }
        }
    }
    assert!(img.fill_from(&data));
    let info = EdgeDetector::process_frame(&img, 20);
    // interior pixel (2, 2) lies just left of the step: gx = 4 * 2549745
    assert_eq!(info.gx[2 * w + 2], 4 * 2549745);
    assert_eq!(info.gy[2 * w + 2], 0);
    assert_eq!(info.magnitude_sq[2 * w + 2], (4u64 * 2549745) * (4 * 2549745));
    assert_eq!(info.magnitude_sq[0], 0);
    let mut conv = converter(w, h, 20, 100, 0);
    let mut out = AsciiFrame::new(w, h, ' ').unwrap();
    conv.convert(&img, &mut out).unwrap();
    assert_eq!(out.chars()[2 * w + 2], '|');
    assert_eq!(out.chars()[2 * w + 3], '|');
    assert_eq!(out.chars()[2 * w + 1], ' ');
    assert_eq!(out.chars()[2 * w + 5], '#');
}

#[test]
fn converter_output_cells_come_from_the_families() {
    let (w, h) = (9usize, 7usize);
    let mut img = ImageFrame::new(w, h, 3).unwrap();
    let data: Vec<u8> = (0..w * h * 3).map(|i| ((i * 37) % 256) as u8).collect();
    assert!(img.fill_from(&data));
    let mut conv = converter(w, h, 5, 150, 10);
    let mut out = AsciiFrame::new(5, 4, 'Q').unwrap();
    conv.convert(&img, &mut out).unwrap();
    assert_eq!(out.chars().len(), 20);
    let (s, hz, v, f, b) = families();
    for c in out.chars() {
        assert!(s.contains(c) || hz.contains(c) || v.contains(c) || f.contains(c) || b.contains(c));
    }
}

#[test]
fn contrast_and_shading_on_uniform_gray() {
    let img = gray_image(4, 4, 128);
    let mut conv = converter(4, 4, 20, 150, 0);
    let mut out = AsciiFrame::new(2, 2, ' ').unwrap();
    conv.convert(&img, &mut out).unwrap();
    // channel 128 -> 128 after contrast 1.5; luma 127; 127 * 10 / 256 = 4 -> 'o'
    assert!(out.chars().iter().all(|&c| c == 'o'));
    let white = gray_image(4, 4, 255);
    conv.convert(&white, &mut out).unwrap();
    assert!(out.chars().iter().all(|&c| c == '#'));
    let mut bright = converter(4, 4, 20, 100, 100);
    let dark = gray_image(4, 4, 0);
    bright.convert(&dark, &mut out).unwrap();
    assert!(out.chars().iter().all(|&c| c == '#'));
}

#[test]
fn converter_rejects_wrong_dimensions_and_bad_families() {
    let mut conv = converter(4, 4, 20, 150, 0);
    let img = gray_image(5, 4, 0);
    let mut out = AsciiFrame::new(2, 2, 'k').unwrap();
    assert_eq!(conv.convert(&img, &mut out).err(), Some(ConverterError::InvalidDimensions));
    assert!(out.chars().iter().all(|&c| c == 'k'));
    let (s, hz, v, f, _) = families();
    assert_eq!(
        AsciiConverter::new(s.clone(), hz.clone(), v.clone(), f.clone(), vec![], 4, 4, 20, 150, 0).err(),
        Some(ConverterError::InvalidGlyphFamily)
    );
    assert_eq!(
        AsciiConverter::new(s, hz, v, f, vec!['\\'], 0, 4, 20, 150, 0).err(),
        Some(ConverterError::InvalidDimensions)
    );
}

#[test]
fn detector_rejects_other_dimensions() {
    let mut d = EdgeDetector::new(4, 3, 20);
    let img = gray_image(3, 4, 9);
    assert_eq!(d.submit_frame(&img), Err(EdgeError::InvalidDimensions));
    let ok = gray_image(4, 3, 9);
    assert_eq!(d.submit_frame(&ok), Ok(()));
    assert_eq!(d.get_edge_info().magnitude_sq.len(), 12);
}

#[test]
fn orientation_bins() {
    assert_eq!(classify(0, 0), Orientation::Horizontal);
    assert_eq!(classify(10, 0), Orientation::Horizontal);
    assert_eq!(classify(-10, 0), Orientation::Horizontal);
    assert_eq!(classify(0, 10), Orientation::Vertical);
    assert_eq!(classify(10, 10), Orientation::Forward);
    assert_eq!(classify(-10, -10), Orientation::Forward);
    assert_eq!(classify(10, -10), Orientation::Back);
    assert_eq!(classify(100, 41), Orientation::Horizontal);
    assert_eq!(classify(100, 42), Orientation::Forward);
    assert_eq!(classify(41, 100), Orientation::Vertical);
    assert_eq!(classify(-42, 100), Orientation::Back);
}

#[test]
fn edge_level_picks_within_family() {
    let (w, h) = (6usize, 5usize);
    let mut img = ImageFrame::new(w, h, 3).unwrap();
    let mut data = vec![0u8; w * h * 3];
    for y in 0..h {
        for x in 3..w {
            for c in 0..3 {
                data[(y * w + x) * 3 + c] = 255;
            }
        }
    }
    assert!(img.fill_from(&data));
    let (s, _, v, f, b) = families();
    let mut conv =
        AsciiConverter::new(s, vec!['a', 'b', 'c'], v, f, b, w, h, 20, 100, 0).unwrap();
    let mut out = AsciiFrame::new(w, h, ' ').unwrap();
    conv.convert(&img, &mut out).unwrap();
    // magnitude 4 * 254.97 is well above 255, so the last glyph of the family
    assert_eq!(out.chars()[2 * w + 2], 'c');
}
