use std::io::Cursor;
use webview_recorder::decode::{check_decoded, decode_frame, DecodeError};

fn png(width: u32, height: u32) -> Vec<u8> {
    let img = image::RgbaImage::from_pixel(width, height, image::Rgba([10, 20, 30, 255]));
    let mut out = Cursor::new(Vec::new());
    img.write_to(&mut out, image::ImageFormat::Png).unwrap();
    out.into_inner()
}

#[test]
fn decodes_png_to_rgba_samples() {
    let bytes = png(3, 2);
    let frame = decode_frame(&bytes, 3, 2).unwrap();
    assert_eq!((frame.width(), frame.height()), (3, 2));
    assert_eq!(frame.samples().len(), 3 * 2 * 4);
    assert_eq!(&frame.samples()[0..4], &[10, 20, 30, 255]);
    let samples = frame.into_samples();
    assert_ne!(samples, bytes);
}

#[test]
fn empty_payload_is_a_failed_capture() {
    assert!(matches!(decode_frame(&[], 3, 2), Err(DecodeError::Empty)));
}

#[test]
fn garbage_payload_is_malformed() {
    assert!(matches!(decode_frame(&[1, 2, 3, 4, 5], 3, 2), Err(DecodeError::Malformed)));
    let mut truncated = png(3, 2);
    truncated.truncate(20);
    assert!(matches!(decode_frame(&truncated, 3, 2), Err(DecodeError::Malformed)));
}

#[test]
fn other_dimensions_are_a_mismatch() {
    let bytes = png(4, 4);
    assert!(matches!(
        decode_frame(&bytes, 3, 2),
        Err(DecodeError::DimensionMismatch { width: 4, height: 4 })
    ));
}

#[test]
fn other_image_formats_are_malformed() {
    // A bitmap header: only PNG payloads are decoded.
    let mut bmp = vec![b'B', b'M'];
    bmp.extend_from_slice(&[0u8; 60]);
    assert!(matches!(decode_frame(&bmp, 3, 2), Err(DecodeError::Malformed)));
}

#[test]
fn decoder_results_are_checked() {
    assert!(matches!(check_decoded(None, 1, 1), Err(DecodeError::Malformed)));
    assert!(matches!(check_decoded(Some((1, 1, vec![0; 3])), 1, 1), Err(DecodeError::Malformed)));
    assert!(matches!(
        check_decoded(Some((2, 1, vec![0; 8])), 1, 1),
        Err(DecodeError::DimensionMismatch { width: 2, height: 1 })
    ));
    let frame = check_decoded(Some((2, 1, vec![7; 8])), 2, 1).unwrap();
    assert_eq!(frame.samples(), &vec![7; 8]);
}
