use element::platform::{dib_to_rgba, icon_from_bgra, rgba_to_dib, toast_geometry};

#[test]
fn dib_round_trip_preserves_pixels() {
    let rgba = [
        255u8, 0, 0, 255, 0, 255, 0, 255, 0, 0, 255, 255, 10, 20, 30, 40,
    ];
    let dib = rgba_to_dib(&rgba, 2, 2);
    let (out, w, h) = dib_to_rgba(&dib).unwrap();
    assert_eq!((w, h), (2, 2));
    assert_eq!(out, rgba);
}

#[test]
fn dib_24bpp_bottom_up_decodes() {
    let mut bytes = Vec::new();
    bytes.extend_from_slice(&40u32.to_le_bytes());
    bytes.extend_from_slice(&2i32.to_le_bytes());
    bytes.extend_from_slice(&2i32.to_le_bytes());
    bytes.extend_from_slice(&1u16.to_le_bytes());
    bytes.extend_from_slice(&24u16.to_le_bytes());
    bytes.extend_from_slice(&0u32.to_le_bytes());
    bytes.extend_from_slice(&0u32.to_le_bytes());
    bytes.extend_from_slice(&[0u8; 16]);
    // bottom row (y=1): blue, white (+ 2 pad bytes)
    bytes.extend_from_slice(&[255, 0, 0, 255, 255, 255, 0, 0]);
    // top row (y=0): red, green (+ 2 pad bytes)
    bytes.extend_from_slice(&[0, 0, 255, 0, 255, 0, 0, 0]);
    let (rgba, w, h) = dib_to_rgba(&bytes).unwrap();
    assert_eq!((w, h), (2, 2));
    assert_eq!(
        rgba,
        vec![
            255, 0, 0, 255, // y=0 red
            0, 255, 0, 255, // y=0 green
            0, 0, 255, 255, // y=1 blue
            255, 255, 255, 255 // y=1 white
        ]
    );
}

#[test]
fn dib_rejects_unsupported_layouts() {
    // Truncated header
    assert!(dib_to_rgba(&[0u8; 20]).is_none());
    // 8 bpp paletted
    let mut bytes = vec![0u8; 40];
    bytes[4..8].copy_from_slice(&4i32.to_le_bytes());
    bytes[8..12].copy_from_slice(&4i32.to_le_bytes());
    bytes[12..14].copy_from_slice(&1u16.to_le_bytes());
    bytes[14..16].copy_from_slice(&8u16.to_le_bytes());
    assert!(dib_to_rgba(&bytes).is_none());
}

#[test]
fn dib_rejects_truncated_pixels_and_zero_height() {
    let dib = rgba_to_dib(&[1, 2, 3, 4, 5, 6, 7, 8], 2, 1);
    assert!(dib_to_rgba(&dib[..dib.len() - 1]).is_none());
    let flat = rgba_to_dib(&[], 2, 0);
    assert!(dib_to_rgba(&flat).is_none());
}

#[test]
fn rgba_to_dib_writes_header_and_swaps_channels() {
    let dib = rgba_to_dib(&[1, 2, 3, 4, 9], 1, 1);
    assert_eq!(dib.len(), 44);
    assert_eq!(&dib[0..4], &40u32.to_le_bytes());
    assert_eq!(&dib[4..8], &1i32.to_le_bytes());
    assert_eq!(&dib[8..12], &(-1i32).to_le_bytes());
    assert_eq!(&dib[14..16], &32u16.to_le_bytes());
    assert_eq!(&dib[20..24], &5u32.to_le_bytes());
    assert_eq!(&dib[40..44], &[3, 2, 1, 4]);
}

fn header(size: u32, width: i32, height: i32, bpp: u16, compression: u32) -> Vec<u8> {
    let mut bytes = Vec::new();
    bytes.extend_from_slice(&size.to_le_bytes());
    bytes.extend_from_slice(&width.to_le_bytes());
    bytes.extend_from_slice(&height.to_le_bytes());
    bytes.extend_from_slice(&1u16.to_le_bytes());
    bytes.extend_from_slice(&bpp.to_le_bytes());
    bytes.extend_from_slice(&compression.to_le_bytes());
    bytes.resize(size as usize, 0);
    bytes
}

#[test]
fn dib_v5_header_pixels_follow_the_header() {
    let mut bytes = header(124, 1, -1, 32, 0);
    bytes.extend_from_slice(&[10, 20, 30, 255]);
    assert_eq!(dib_to_rgba(&bytes), Some((vec![30, 20, 10, 255], 1, 1)));
}

#[test]
fn dib_bitfields_masks_are_skipped() {
    let mut bytes = header(40, 1, 1, 32, 3);
    bytes.extend_from_slice(&0x00ff_0000u32.to_le_bytes());
    bytes.extend_from_slice(&0x0000_ff00u32.to_le_bytes());
    bytes.extend_from_slice(&0x0000_00ffu32.to_le_bytes());
    bytes.extend_from_slice(&[1, 2, 3, 4]);
    assert_eq!(dib_to_rgba(&bytes), Some((vec![3, 2, 1, 4], 1, 1)));
}

#[test]
fn dib_short_or_oversized_header_is_refused() {
    let mut bytes = header(40, 1, 1, 32, 0);
    bytes[0] = 12;
    bytes.extend_from_slice(&[1, 2, 3, 4]);
    assert_eq!(dib_to_rgba(&bytes), None);
    let mut bytes = header(40, 1, 1, 32, 0);
    bytes[0] = 200;
    bytes.extend_from_slice(&[1, 2, 3, 4]);
    assert_eq!(dib_to_rgba(&bytes), None);
}

#[test]
fn icon_pixels_swap_channels_and_reject_white() {
    assert_eq!(icon_from_bgra(&[1, 2, 3, 4, 255, 255, 255, 0, 9]), Some(vec![3, 2, 1, 4, 255, 255, 255, 0]));
    assert_eq!(icon_from_bgra(&[255, 255, 255, 7, 255, 255, 255, 255]), None);
    assert_eq!(icon_from_bgra(&[]), None);
}

#[test]
fn toast_rests_in_the_bottom_right_corner() {
    assert_eq!(toast_geometry(100, 50, 1920, 1040), (1920 - 220 - 14, 1040 - 80, 220, 66));
    assert_eq!(toast_geometry(250, 300, 1920, 1040), (1920 - 348 - 14, 960, 348, 66));
    assert_eq!(toast_geometry(900, 10, 1920, 1040), (1920 - 460 - 14, 960, 460, 66));
}
