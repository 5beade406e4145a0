use pigeon::images::{
    app_icon_file, decode_image_bytes, decode_raw_image, draw_thumbnail, thumbnail_fits, image_path_file, image_source, Image,
    ImageSource, RawImage,
};

fn raw(width: i32, height: i32, rowstride: i32, has_alpha: bool, bits: i32, channels: i32, bytes: Vec<u8>) -> RawImage {
    RawImage { width, height, rowstride, has_alpha, bits_per_sample: bits, channels, bytes }
}

#[test]
fn rgb_rows_are_unpadded_and_made_opaque() {
    let image = decode_raw_image(raw(2, 1, 8, false, 8, 3, vec![1, 2, 3, 4, 5, 6, 0, 0])).unwrap();
    assert_eq!(image.dimensions(), (2, 1));
    assert_eq!(image.pixels(), &[1, 2, 3, 255, 4, 5, 6, 255]);
}

#[test]
fn rgba_data_is_kept() {
    let image = decode_raw_image(raw(1, 2, 4, true, 8, 4, vec![1, 2, 3, 4, 5, 6, 7, 8, 9])).unwrap();
    assert_eq!(image.dimensions(), (1, 2));
    assert_eq!(image.pixels(), &[1, 2, 3, 4, 5, 6, 7, 8]);
    let padded = decode_raw_image(raw(1, 2, 6, true, 8, 4, vec![1, 2, 3, 4, 0, 0, 5, 6, 7, 8, 0, 0])).unwrap();
    assert_eq!(padded.pixels(), &[1, 2, 3, 4, 5, 6, 7, 8]);
}

#[test]
fn malformed_raw_images_are_refused() {
    assert!(decode_raw_image(raw(1, 1, 4, true, 16, 4, vec![0; 8])).is_none());
    assert!(decode_raw_image(raw(0, 1, 4, true, 8, 4, vec![0; 4])).is_none());
    assert!(decode_raw_image(raw(1, 1, 3, true, 8, 3, vec![0; 3])).is_none());
    assert!(decode_raw_image(raw(2, 2, 8, true, 8, 4, vec![0; 15])).is_none());
    assert!(decode_raw_image(raw(2, 1, 4, true, 8, 4, vec![0; 8])).is_none());
    assert!(decode_raw_image(raw(-1, 1, 4, true, 8, 4, vec![0; 4])).is_none());
    assert!(decode_raw_image(raw(5000, 1, 20000, true, 8, 4, vec![0; 20000])).is_none());
}

#[test]
fn image_paths_accept_absolute_file_urls() {
    assert_eq!(image_path_file("file:///tmp/a.png").as_deref(), Some("/tmp/a.png"));
    assert_eq!(image_path_file("file://tmp/a.png"), None);
    assert_eq!(image_path_file("relative.png").as_deref(), Some("relative.png"));
    assert_eq!(app_icon_file("firefox"), None);
    assert_eq!(app_icon_file("/usr/share/a.png").as_deref(), Some("/usr/share/a.png"));
    assert_eq!(app_icon_file("file:///x.png").as_deref(), Some("/x.png"));
}

#[test]
fn pictures_come_from_raw_data_then_paths_then_icons() {
    assert_eq!(image_source(0, true, Some("p".to_string()), "icon"), ImageSource::Nothing);
    assert_eq!(image_source(64, true, Some("p".to_string()), "icon"), ImageSource::Raw);
    assert_eq!(image_source(64, false, Some("p".to_string()), "icon"), ImageSource::Path("p".to_string()));
    assert_eq!(image_source(64, false, None, "icon"), ImageSource::AppIcon("icon".to_string()));
    assert_eq!(image_source(64, false, None, ""), ImageSource::Nothing);
}

#[test]
fn thumbnails_are_drawn_centred_and_blended() {
    let red = Image::from_rgba(2, 2, [255, 0, 0, 255].repeat(4)).unwrap();
    let mut canvas = vec![0u8; 4 * 4 * 4];
    draw_thumbnail(&mut canvas, 4, 4, &red, 0, 0, 4, 4);
    let at = |x: usize, y: usize| (y * 4 + x) * 4;
    assert_eq!(&canvas[at(1, 1)..at(1, 1) + 4], &[0, 0, 255, 255]);
    assert_eq!(&canvas[at(2, 2)..at(2, 2) + 4], &[0, 0, 255, 255]);
    assert_eq!(&canvas[at(0, 0)..at(0, 0) + 4], &[0, 0, 0, 0]);
    assert_eq!(&canvas[at(3, 1)..at(3, 1) + 4], &[0, 0, 0, 0]);

    let faint = Image::from_rgba(1, 1, vec![255, 0, 0, 128]).unwrap();
    let mut canvas = vec![0u8; 4];
    draw_thumbnail(&mut canvas, 1, 1, &faint, 0, 0, 1, 1);
    assert_eq!(canvas, vec![0, 0, 128, 255]);
}

#[test]
fn thumbnails_clip_to_the_canvas() {
    let red = Image::from_rgba(2, 2, [255, 0, 0, 255].repeat(4)).unwrap();
    let mut canvas = vec![0u8; 4 * 4];
    draw_thumbnail(&mut canvas, 2, 2, &red, 1, 1, 2, 2);
    assert_eq!(&canvas[12..16], &[0, 0, 255, 255]);
    assert_eq!(&canvas[0..12], &[0; 12]);
}

#[test]
fn thumbnails_have_the_asked_size() {
    let image = Image::from_rgba(2, 2, vec![10, 20, 30, 40].repeat(4)).unwrap();
    let small = image.thumbnail(1);
    assert_eq!(small.dimensions(), (1, 1));
    assert_eq!(small.pixels(), &[10, 20, 30, 40]);
    let dot = Image::from_rgba(1, 1, vec![10, 20, 30, 40]).unwrap();
    let large = dot.thumbnail(3);
    assert_eq!(large.dimensions(), (3, 3));
    assert_eq!(large.pixels(), [10, 20, 30, 40].repeat(9).as_slice());
}

#[test]
fn image_sizes_must_match_their_pixels() {
    assert!(Image::from_rgba(2, 2, vec![0; 15]).is_none());
    assert!(Image::from_rgba(2, 2, vec![0; 16]).is_some());
}

#[test]
fn image_file_bytes_decode_to_rgba() {
    let source = image::RgbaImage::from_raw(2, 1, vec![255, 0, 0, 255, 0, 0, 255, 128]).unwrap();
    let mut png = std::io::Cursor::new(Vec::new());
    source.write_to(&mut png, image::ImageFormat::Png).unwrap();
    let decoded = decode_image_bytes(png.get_ref()).unwrap();
    assert_eq!(decoded.dimensions(), (2, 1));
    assert_eq!(decoded.pixels(), &[255, 0, 0, 255, 0, 0, 255, 128]);

    let gray = image::GrayImage::from_raw(1, 1, vec![7]).unwrap();
    let mut png = std::io::Cursor::new(Vec::new());
    gray.write_to(&mut png, image::ImageFormat::Png).unwrap();
    assert_eq!(decode_image_bytes(png.get_ref()).unwrap().pixels(), &[7, 7, 7, 255]);

    assert!(decode_image_bytes(b"not an image").is_none());
    assert!(decode_image_bytes(&[]).is_none());
}

#[test]
fn thumbnail_placement_is_checked_before_drawing() {
    let red = Image::from_rgba(2, 2, vec![255, 0, 0, 255].repeat(4)).unwrap();
    assert!(thumbnail_fits(64, 4, 4, &red, 0, 0, 4, 4));
    assert!(!thumbnail_fits(63, 4, 4, &red, 0, 0, 4, 4));
    assert!(!thumbnail_fits(64, 4, 4, &red, 0, 0, 1, 4));
    assert!(!thumbnail_fits(64, 4, 4, &red, u32::MAX, 0, 2, 2));
    // A canvas too large for u32 byte indices is fine while the drawn pixels' indices fit.
    let wide = 70_000u32;
    assert!(thumbnail_fits(usize::MAX, wide, wide, &red, 0, 0, 2, 2));
    assert!(!thumbnail_fits(usize::MAX, wide, wide, &red, 0, 69_990, 2, 2));
}
