use retro_frontend::convert::{ConversionTables, PixelFormat};
use retro_frontend::video::{
    render_frame, set_up_pixel_format, EmulatorPixelFormat, PixelFormatState, VideoFrame,
    VideoFrameRelay,
};

#[test]
fn take_without_publish_is_none() {
    let mut relay = VideoFrameRelay::new();
    assert!(relay.take().is_none());
}

#[test]
fn latest_publish_wins() {
    let mut relay = VideoFrameRelay::new();
    for n in 1..=5u8 {
        assert!(relay.publish(vec![n; 4], n as u32));
    }
    let f = relay.take().unwrap();
    assert_eq!(f.frame_buffer, vec![5u8; 4]);
    assert_eq!(f.pitch, 5);
    assert!(relay.take().is_none());
}

#[test]
fn empty_publish_is_ignored() {
    let mut relay = VideoFrameRelay::new();
    assert!(relay.publish(vec![1, 2], 2));
    assert!(!relay.publish(Vec::new(), 9));
    let f = relay.take().unwrap();
    assert_eq!(f.frame_buffer, vec![1, 2]);
}

#[test]
fn byte_len_checks_overflow() {
    assert_eq!(VideoFrame::byte_len(512, 224), Some(114_688));
    assert_eq!(VideoFrame::byte_len(usize::MAX, 2), None);
}

#[test]
fn pixel_format_defaults_and_sticks() {
    assert_eq!(EmulatorPixelFormat::default().0, PixelFormat::ARGB8888);
    let mut st = PixelFormatState::new();
    assert_eq!(st.active(), PixelFormat::ARGB8888);
    assert_eq!(st.bytes_per_pixel(), 4);
    st.declare(PixelFormat::RGB565);
    st.declare(PixelFormat::ARGB8888);
    assert_eq!(st.active(), PixelFormat::RGB565);
    assert_eq!(st.bytes_per_pixel(), 2);
}

#[test]
fn set_up_pixel_format_takes_first_declaration() {
    let mut st = PixelFormatState::new();
    assert_eq!(set_up_pixel_format(&mut st, &[]), 4);
    assert_eq!(set_up_pixel_format(&mut st, &[PixelFormat::ARGB1555, PixelFormat::ARGB8888]), 2);
    assert_eq!(st.active(), PixelFormat::ARGB1555);
    assert_eq!(set_up_pixel_format(&mut st, &[PixelFormat::ARGB8888]), 2);
}

#[test]
fn render_rgb565_with_row_padding() {
    let t = ConversionTables::new();
    // 2x2 pixels, pitch 6 (2 bytes of padding per row)
    let frame = VideoFrame {
        frame_buffer: vec![0x00, 0xF8, 0xE0, 0x07, 0xAA, 0xAA, 0x1F, 0x00, 0xFF, 0xFF, 0xAA, 0xAA],
        pitch: 6,
    };
    let mut dest = vec![0u8; 16];
    render_frame(&t, PixelFormat::RGB565, &frame, 2, 2, &mut dest);
    assert_eq!(
        dest,
        vec![
            0x00, 0x00, 0xFF, 0xFF, 0x00, 0xFF, 0x00, 0xFF, 0xFF, 0x00, 0x00, 0xFF, 0xFF, 0xFF,
            0xFF, 0xFF
        ]
    );
}

#[test]
fn render_argb8888_copies_bytes() {
    let t = ConversionTables::new();
    let frame = VideoFrame { frame_buffer: (0..16).collect(), pitch: 8 };
    let mut dest = vec![0u8; 16];
    render_frame(&t, PixelFormat::ARGB8888, &frame, 2, 2, &mut dest);
    assert_eq!(dest, (0..16).collect::<Vec<u8>>());
}

#[test]
fn render_clips_short_source_row() {
    let t = ConversionTables::new();
    // second row holds only one whole pixel
    let frame = VideoFrame { frame_buffer: vec![0xFF, 0xFF, 0xFF, 0xFF, 0x00, 0x00, 0x00], pitch: 4 };
    let mut dest = vec![9u8; 16];
    render_frame(&t, PixelFormat::RGB565, &frame, 2, 2, &mut dest);
    assert_eq!(&dest[0..8], &[0xFF; 8]);
    assert_eq!(&dest[8..12], &[0x00, 0x00, 0x00, 0xFF]);
    assert_eq!(&dest[12..16], &[9, 9, 9, 9]);
}

#[test]
fn render_clips_short_destination() {
    let t = ConversionTables::new();
    let frame = VideoFrame { frame_buffer: vec![0x1F, 0x00, 0x1F, 0x00], pitch: 4 };
    let mut dest = vec![5u8; 6];
    render_frame(&t, PixelFormat::ARGB1555, &frame, 1, 2, &mut dest);
    assert_eq!(dest, vec![0xFF, 0x00, 0x00, 0x00, 5, 5]);
}

#[test]
fn render_zero_pitch_repeats_first_row() {
    let t = ConversionTables::new();
    let frame = VideoFrame { frame_buffer: vec![1, 2, 3, 4], pitch: 0 };
    let mut dest = vec![0u8; 8];
    render_frame(&t, PixelFormat::ARGB8888, &frame, 2, 1, &mut dest);
    assert_eq!(dest, vec![1, 2, 3, 4, 1, 2, 3, 4]);
}
