use ascii_chat::ascii_frame::{AsciiFrame, FrameError};
use ascii_chat::image_frame::{ImageError, ImageFrame};
use ascii_chat::protocol::VideoFrame;
use ascii_chat::renderer::{AsciiRenderer, WireError};

fn frame_from(w: usize, h: usize, text: &str) -> AsciiFrame {
    AsciiFrame::from_bytes(w, h, text.as_bytes()).unwrap()
}

#[test]
fn ascii_frame_new_fills_and_rejects_zero() {
    let f = AsciiFrame::new(3, 2, 'x').unwrap();
    assert_eq!(f.w, 3);
    assert_eq!(f.h, 2);
    assert_eq!(f.chars(), &['x'; 6]);
    assert_eq!(AsciiFrame::new(0, 2, 'x').err(), Some(FrameError::ZeroDimension));
    assert_eq!(AsciiFrame::new(2, 0, 'x').err(), Some(FrameError::ZeroDimension));
}

#[test]
fn ascii_frame_from_bytes_ignores_trailing_and_rejects_short() {
    let f = AsciiFrame::from_bytes(2, 2, b"abcdEF").unwrap();
    assert_eq!(f.chars(), &['a', 'b', 'c', 'd']);
    assert_eq!(AsciiFrame::from_bytes(2, 2, b"abc").err(), Some(FrameError::NotEnoughData));
    assert_eq!(AsciiFrame::from_bytes(0, 2, b"abcd").err(), Some(FrameError::ZeroDimension));
    assert_eq!(
        AsciiFrame::from_bytes(usize::MAX, 2, b"abcd").err(),
        Some(FrameError::NotEnoughData)
    );
}

#[test]
fn ascii_frame_set_char_and_set_chars() {
    let mut f = AsciiFrame::new(3, 2, '.').unwrap();
    assert!(f.set_char(2, 1, 'Z'));
    assert!(!f.set_char(3, 0, 'Q'));
    assert!(!f.set_char(0, 2, 'Q'));
    assert_eq!(f.chars(), &['.', '.', '.', '.', '.', 'Z']);
    assert!(f.set_chars(&['a', 'b']));
    assert_eq!(f.chars(), &['a', 'b', '.', '.', '.', 'Z']);
    assert!(!f.set_chars(&['q'; 7]));
    assert!(f.set_chars_from_bytes(b"xyz"));
    assert_eq!(f.chars(), &['x', 'y', 'z', '.', '.', 'Z']);
    assert!(!f.set_chars_from_bytes(&[0u8; 7]));
    assert!(f.set_chars_from_vec(vec!['1', '2', '3', '4', '5', '6']));
    assert_eq!(f.chars(), &['1', '2', '3', '4', '5', '6']);
    assert!(!f.set_chars_from_vec(vec!['1'; 8]));
}

#[test]
fn ascii_frame_bytes_keep_low_byte() {
    let mut f = AsciiFrame::new(2, 1, 'A').unwrap();
    f.set_char(1, 0, '\u{25A0}');
    assert_eq!(f.bytes(), vec![b'A', 0xA0]);
}

#[test]
fn wire_framing_of_a_four_by_two_frame() {
    let f = frame_from(4, 2, "ABCDEFGH");
    let bytes = AsciiRenderer::serialize_frame(&f);
    let expected: Vec<u8> = vec![
        0, 0, 0, 0, 0, 0, 0, 4, 0, 0, 0, 0, 0, 0, 0, 2, b'A', b'B', b'C', b'D', b'E', b'F', b'G',
        b'H',
    ];
    assert_eq!(bytes, expected);
    assert_eq!(bytes.len(), 24);
    let r = AsciiRenderer::new();
    let back = r.process_datagram(&bytes).unwrap();
    assert_eq!(back.w, 4);
    assert_eq!(back.h, 2);
    assert_eq!(back.chars(), f.chars());
}

#[test]
fn wire_round_trip_of_printable_frame() {
    let text: String = (0x20u8..0x7F).map(|b| b as char).take(90).collect();
    let f = frame_from(9, 10, &text);
    let r = AsciiRenderer::new();
    let back = r.process_datagram(&AsciiRenderer::serialize_frame(&f)).unwrap();
    assert_eq!((back.w, back.h), (9, 10));
    assert_eq!(back.chars(), f.chars());
}

#[test]
fn short_datagrams_are_rejected() {
    let r = AsciiRenderer::new();
    assert_eq!(r.process_datagram(&[0u8; 15]).err(), Some(WireError::ShortHeader));
    let f = frame_from(3, 2, "abcdef");
    let mut bytes = AsciiRenderer::serialize_frame(&f);
    bytes.pop();
    assert_eq!(bytes.len(), 16 + 3 * 2 - 1);
    assert_eq!(r.process_datagram(&bytes).err(), Some(WireError::ShortBody));
    assert_eq!(r.process_datagram(b"PING").err(), Some(WireError::ShortHeader));
    let mut zero = vec![0u8; 16];
    zero[7] = 3;
    assert_eq!(r.process_datagram(&zero).err(), Some(WireError::ZeroDimension));
    let mut huge = vec![0xFFu8; 16];
    huge.extend_from_slice(b"abc");
    assert_eq!(r.process_datagram(&huge).err(), Some(WireError::ShortBody));
}

#[test]
fn trailing_bytes_after_the_cells_are_ignored() {
    let f = frame_from(2, 1, "hi");
    let mut bytes = AsciiRenderer::serialize_frame(&f);
    bytes.extend_from_slice(b"junk");
    let back = AsciiRenderer::new().process_datagram(&bytes).unwrap();
    assert_eq!(back.chars(), &['h', 'i']);
}

#[test]
fn renderer_repaints_only_the_changed_cell() {
    let mut r = AsciiRenderer::new();
    let f1 = frame_from(3, 2, "aaaaaa");
    let first: String = r.render(&f1).into_iter().collect();
    assert!(first.starts_with("\x1b[2J\x1b[1;1H"));
    let f2 = frame_from(3, 2, "aaaaba");
    let second: String = r.render(&f2).into_iter().collect();
    assert_eq!(second, "\x1b[2;2Hb");
    let third: String = r.render(&f2).into_iter().collect();
    assert_eq!(third, "");
}

#[test]
fn renderer_clears_on_resize_and_paints_non_spaces() {
    let mut r = AsciiRenderer::new();
    let f = frame_from(2, 1, "a ");
    let out: String = r.render(&f).into_iter().collect();
    assert_eq!(out, "\x1b[2J\x1b[1;1H\x1b[1;1Ha");
    let g = frame_from(1, 12, "           x");
    let out: String = r.render(&g).into_iter().collect();
    assert_eq!(out, "\x1b[2J\x1b[1;1H\x1b[12;1Hx");
}

#[test]
fn image_frame_pixels_and_intensity() {
    let mut img = ImageFrame::new(2, 2, 3).unwrap();
    assert_eq!(img.buffer().len(), 12);
    assert!(img.fill_from(&[1, 2, 3, 4, 5, 6, 7, 8, 9, 10, 11, 12]));
    assert!(!img.fill_from(&[1, 2, 3]));
    assert_eq!(img.get_pixel(1, 1), Some((10, 11, 12)));
    assert_eq!(img.get_pixel(2, 0), None);
    assert_eq!(img.get_pixel(0, 2), None);
    assert_eq!(ImageFrame::new(0, 1, 3).err(), Some(ImageError::ZeroDimension));
    assert_eq!(ImageFrame::new(1, 1, 0).err(), Some(ImageError::ZeroDimension));
    assert_eq!(ImageFrame::calculate_intensity_u8((255, 255, 255)), 254);
    assert_eq!(ImageFrame::calculate_intensity_u8((0, 0, 0)), 0);
    assert_eq!(ImageFrame::calculate_intensity_u8((100, 0, 0)), 29);
    let two = ImageFrame::new(1, 1, 2).unwrap();
    assert_eq!(two.get_pixel(0, 0), None);
}

#[test]
fn video_frame_round_trip_and_padding() {
    let f = frame_from(2, 2, "wxyz");
    let v = VideoFrame::from_ascii_frame(&f);
    assert_eq!((v.w, v.h), (2, 2));
    assert_eq!(v.data, vec!['w', 'x', 'y', 'z']);
    let back = v.to_ascii_frame().unwrap();
    assert_eq!(back.chars(), f.chars());
    let short = VideoFrame { w: 2, h: 2, timestamp: 0, data: vec!['q'] };
    assert_eq!(short.to_ascii_frame().unwrap().chars(), &['q', ' ', ' ', ' ']);
    let zero = VideoFrame { w: 0, h: 2, timestamp: 0, data: vec![] };
    assert_eq!(zero.to_ascii_frame().err(), Some(FrameError::ZeroDimension));
}
