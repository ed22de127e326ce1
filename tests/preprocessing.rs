use std::io::Cursor;
use whatisit::error::DetectError;
use whatisit::preprocess::{prepare, preprocess, resized_dimensions, to_channel_major};

fn png_of(width: u32, height: u32, rgb: [u8; 3]) -> Vec<u8> {
    let img = image::RgbImage::from_pixel(width, height, image::Rgb(rgb));
    let mut out = Cursor::new(Vec::new());
    img.write_to(&mut out, image::ImageFormat::Png).unwrap();
    out.into_inner()
}

#[test]
fn landscape_picture_sizes() {
    assert_eq!(resized_dimensions(1280, 960), Ok((640, 480)));
}

#[test]
fn portrait_and_square_sizes() {
    assert_eq!(resized_dimensions(960, 1280), Ok((480, 640)));
    assert_eq!(resized_dimensions(500, 500), Ok((640, 640)));
    assert_eq!(resized_dimensions(1000, 700), Ok((640, 448)));
    assert_eq!(resized_dimensions(1, 1), Ok((640, 640)));
    assert_eq!(resized_dimensions(10, 1000), Ok((0, 640)));
    assert_eq!(resized_dimensions(u32::MAX, 1), Ok((640, 0)));
}

#[test]
fn sizes_stay_within_bounds() {
    for (w, h) in [(1, 7), (33, 2), (641, 640), (4000, 3000), (123, 4567), (640, 639)] {
        let (nw, nh) = resized_dimensions(w, h).unwrap();
        assert!(nw <= 640 && nh <= 640);
        assert_eq!(nw % 32, 0);
        assert_eq!(nh % 32, 0);
        assert!(nw == 640 || nh == 640);
    }
}

#[test]
fn empty_picture_is_invalid() {
    assert_eq!(resized_dimensions(0, 10), Err(DetectError::InvalidImage));
    assert_eq!(resized_dimensions(10, 0), Err(DetectError::InvalidImage));
    assert!(matches!(prepare(0, 5, vec![]), Err(DetectError::InvalidImage)));
    assert!(matches!(prepare(2, 2, vec![0; 11]), Err(DetectError::InvalidImage)));
}

#[test]
fn channel_major_layout() {
    let px = vec![1, 2, 3, 4, 5, 6, 7, 8, 9, 10, 11, 12];
    assert_eq!(to_channel_major(&px, 2, 2), vec![1, 4, 7, 10, 2, 5, 8, 11, 3, 6, 9, 12]);
    assert_eq!(to_channel_major(&vec![], 0, 3), Vec::<u8>::new());
}

#[test]
fn undecodable_bytes_are_invalid() {
    assert!(matches!(preprocess(b"not a picture at all"), Err(DetectError::InvalidImage)));
    assert!(matches!(preprocess(&[]), Err(DetectError::InvalidImage)));
}

#[test]
fn uploaded_picture_is_resized_and_laid_out() {
    let bytes = png_of(64, 32, [200, 10, 50]);
    let input = preprocess(&bytes).unwrap();
    assert_eq!((input.width, input.height), (640, 320));
    let n = 640 * 320;
    assert_eq!(input.samples.len(), 3 * n);
    let close = |v: u8, want: u8| (v as i32 - want as i32).abs() <= 1;
    assert!(input.samples[..n].iter().all(|&v| close(v, 200)));
    assert!(input.samples[n..2 * n].iter().all(|&v| close(v, 10)));
    assert!(input.samples[2 * n..].iter().all(|&v| close(v, 50)));
}

#[test]
fn prepare_resizes_decoded_samples() {
    let px: Vec<u8> = [7u8, 8, 9].repeat(4 * 2);
    let input = prepare(4, 2, px).unwrap();
    assert_eq!((input.width, input.height), (640, 320));
    assert_eq!(input.samples.len(), 3 * 640 * 320);
    assert!(input.samples[..640 * 320].iter().all(|&v| (v as i32 - 7).abs() <= 1));
}
