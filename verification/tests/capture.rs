use vidcast::capture::RgbaPixel;
use vidcast::capture::ScreenCapture;

#[test]
fn start_code_is_exactly_four_bytes() {
    assert!(ScreenCapture::is_start_code(&[0x00, 0x00, 0x00, 0x01]));
    assert!(!ScreenCapture::is_start_code(&[0x00, 0x00, 0x01]));
    assert!(!ScreenCapture::is_start_code(&[0x00, 0x00, 0x00, 0x02]));
    assert!(!ScreenCapture::is_start_code(&[0x00, 0x00, 0x00, 0x01, 0x00]));
}

#[test]
fn process_nals_splits_at_start_codes() {
    let mut data: Vec<u8> = vec![0xAA, 0xBB];  // leading bytes before any start code are dropped
    data.extend_from_slice(&[0x00, 0x00, 0x00, 0x01, 0x65, 0x11, 0x22]);
    data.extend_from_slice(&[0x00, 0x00, 0x00, 0x01, 0x41]);
    let units = ScreenCapture::process_nals(&data);
    assert_eq!(units.len(), 2);
    assert_eq!(units[0], vec![0x00, 0x00, 0x00, 0x01, 0x65, 0x11, 0x22]);
    assert_eq!(units[1], vec![0x00, 0x00, 0x00, 0x01, 0x41]);
}

#[test]
fn process_nals_drops_middle_unit_no_longer_than_the_start_code() {
    let mut data: Vec<u8> = Vec::new();
    data.extend_from_slice(&[0x00, 0x00, 0x00, 0x01]);  // unit of exactly four bytes
    data.extend_from_slice(&[0x00, 0x00, 0x00, 0x01, 0x09]);
    let units = ScreenCapture::process_nals(&data);
    assert_eq!(units.len(), 1);
    assert_eq!(units[0], vec![0x00, 0x00, 0x00, 0x01, 0x09]);
}

#[test]
fn process_nals_without_start_code_yields_nothing() {
    let units = ScreenCapture::process_nals(&[1, 2, 3, 4, 5]);
    assert!(units.is_empty());
    let units = ScreenCapture::process_nals(&[]);
    assert!(units.is_empty());
}

#[test]
fn process_nals_keeps_a_bare_trailing_start_code() {
    // A start code found one byte in: the trailing unit has no length
    // filter, unlike units between two start codes.
    let units = ScreenCapture::process_nals(&[0x00, 0x00, 0x00, 0x00, 0x01]);
    assert_eq!(units.len(), 1);
    assert_eq!(units[0], vec![0x00, 0x00, 0x00, 0x01]);
}

#[test]
fn encoder_restart_only_on_a_higher_count() {
    let capture = ScreenCapture::new();
    assert_eq!(capture.client_number, 0);
    assert!(capture.needs_encoder_restart(1));
    assert!(!capture.needs_encoder_restart(0));
    let seen = ScreenCapture { client_number: 3 };
    assert!(!seen.needs_encoder_restart(3));
    assert!(seen.needs_encoder_restart(4));
}

#[test]
fn frame_buffer_regroups_into_pixels() {
    let raw: Vec<u8> = vec![1, 2, 3, 4, 5, 6, 7, 8];
    let pixels = ScreenCapture::get_rgba_from_frame_buffer(&raw).ok().unwrap();
    assert_eq!(pixels.len(), 2);
    assert_eq!(pixels[0], RgbaPixel { red: 1, green: 2, blue: 3, alpha: 4 });
    assert_eq!(pixels[1], RgbaPixel { red: 5, green: 6, blue: 7, alpha: 8 });
}

#[test]
fn frame_buffer_of_odd_length_is_rejected() {
    let raw: Vec<u8> = vec![1, 2, 3, 4, 5, 6, 7];
    assert!(ScreenCapture::get_rgba_from_frame_buffer(&raw).is_err());
    assert!(ScreenCapture::get_rgba_from_frame_buffer(&[]).is_ok());
}
