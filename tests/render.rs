use rust_gymnasium::render::{pixel_layout, png_outcome, PixelLayout};
use rust_gymnasium::{
    black, blue, encode_pixels_png, encode_png, gray, green, red, white, Canvas, Color, GymError,
    RenderFrame,
};

fn pixel(c: &Canvas, x: u32, y: u32) -> Color {
    let i = ((y * c.width + x) * 4) as usize;
    Color(c.pixels[i], c.pixels[i + 1], c.pixels[i + 2], c.pixels[i + 3])
}

#[test]
fn encode_png_with_feature_produces_png_signature() {
    let frame = RenderFrame::Pixels {
        width: 2,
        height: 2,
        data: vec![255, 0, 0, 255, 0, 255, 0, 255, 0, 0, 255, 255, 255, 255, 255, 255],
    };
    let bytes = encode_png(&frame).expect("PNG encoding should succeed");
    let sig = &bytes[..8];
    assert_eq!(sig, &[137, 80, 78, 71, 13, 10, 26, 10]);
}

#[test]
fn encode_rgb_pixels_gives_a_png_file() {
    let data = vec![1u8, 2, 3, 4, 5, 6, 7, 8, 9, 10, 11, 12];
    let bytes = encode_pixels_png(2, 2, &data).expect("RGB data encodes");
    assert_eq!(&bytes[..8], &[137, 80, 78, 71, 13, 10, 26, 10]);
    assert_ne!(bytes, data);
    assert_eq!(&bytes[12..16], b"IHDR");
}

#[test]
fn encode_text_frame_is_not_supported() {
    let err = encode_png(&RenderFrame::Text("x".to_string())).unwrap_err();
    assert!(matches!(err, GymError::NotSupported(_)));
}

#[test]
fn encode_pixels_of_wrong_length_is_invalid_observation() {
    let frame = RenderFrame::Pixels { width: 2, height: 2, data: vec![0; 15] };
    let err = encode_png(&frame).unwrap_err();
    assert!(matches!(err, GymError::InvalidObservation(_)));
    assert!(!err.message().is_empty());
}

#[test]
fn encode_empty_image_reports_encoder_failure() {
    let err = encode_pixels_png(0, 0, &vec![]).unwrap_err();
    assert!(matches!(err, GymError::Other(_)));
    assert!(err.message().starts_with("PNG encode error"));
}

#[test]
fn named_colors_have_their_components() {
    assert_eq!(black(), Color(0, 0, 0, 255));
    assert_eq!(white(), Color(255, 255, 255, 255));
    assert_eq!(red(), Color(220, 20, 60, 255));
    assert_eq!(green(), Color(0, 200, 0, 255));
    assert_eq!(blue(), Color(0, 120, 255, 255));
    assert_eq!(gray(), Color(180, 180, 180, 255));
}

#[test]
fn new_canvas_is_black() {
    let c = Canvas::new(3, 2);
    assert_eq!(c.pixels.len(), 24);
    for y in 0..2 {
        for x in 0..3 {
            assert_eq!(pixel(&c, x, y), black());
        }
    }
}

#[test]
fn clear_paints_every_pixel() {
    let mut c = Canvas::new(4, 3);
    c.clear(white());
    assert!(c.pixels.chunks(4).all(|p| p == [255, 255, 255, 255]));
}

#[test]
fn put_pixel_sets_one_pixel_and_ignores_off_canvas() {
    let mut c = Canvas::new(3, 3);
    c.put_pixel(1, 2, red());
    assert_eq!(pixel(&c, 1, 2), red());
    assert_eq!(&c.pixels[28..32], &[220, 20, 60, 255]);
    let snapshot = c.pixels.clone();
    c.put_pixel(-1, 0, blue());
    c.put_pixel(0, -1, blue());
    c.put_pixel(3, 0, blue());
    c.put_pixel(0, 3, blue());
    assert_eq!(c.pixels, snapshot);
}

#[test]
fn fill_rect_clips_to_the_canvas() {
    let mut c = Canvas::new(4, 4);
    c.fill_rect(-1, 2, 3, 5, green());
    for y in 0..4 {
        for x in 0..4 {
            let expected = if x < 2 && y >= 2 { green() } else { black() };
            assert_eq!(pixel(&c, x, y), expected);
        }
    }
    let snapshot = c.pixels.clone();
    c.fill_rect(0, 0, 0, 3, red());
    c.fill_rect(0, 0, 3, -1, red());
    c.fill_rect(10, 10, 3, 3, red());
    c.fill_rect(-10, -10, 3, 3, red());
    assert_eq!(c.pixels, snapshot);
}

#[test]
fn draw_line_covers_bresenham_points() {
    let mut c = Canvas::new(5, 5);
    c.draw_line(0, 0, 4, 2, white());
    let lit: Vec<(u32, u32)> = (0..5)
        .flat_map(|y| (0..5).map(move |x| (x, y)))
        .filter(|&(x, y)| pixel(&c, x, y) == white())
        .collect();
    assert_eq!(lit, vec![(0, 0), (1, 1), (2, 1), (3, 2), (4, 2)]);
}

#[test]
fn draw_line_handles_single_points_and_off_canvas_ends() {
    let mut c = Canvas::new(3, 3);
    c.draw_line(1, 1, 1, 1, blue());
    assert_eq!(pixel(&c, 1, 1), blue());
    assert_eq!(c.pixels.chunks(4).filter(|p| *p == [0, 120, 255, 255]).count(), 1);
    let mut d = Canvas::new(3, 3);
    d.draw_line(-2, 1, 5, 1, red());
    for x in 0..3 {
        assert_eq!(pixel(&d, x, 1), red());
        assert_eq!(pixel(&d, x, 0), black());
    }
    let mut e = Canvas::new(2, 2);
    e.draw_line(i32::MIN, i32::MIN, i32::MAX, i32::MAX, white());
    assert_eq!(e.pixels.len(), 16);
}

#[test]
fn draw_line_backwards_and_steep() {
    let mut c = Canvas::new(3, 4);
    c.draw_line(2, 3, 0, 0, gray());
    let lit: Vec<(u32, u32)> = (0..4)
        .flat_map(|y| (0..3).map(move |x| (x, y)))
        .filter(|&(x, y)| pixel(&c, x, y) == gray())
        .collect();
    assert_eq!(lit, vec![(0, 0), (1, 1), (1, 2), (2, 3)]);
}

#[test]
fn canvas_becomes_a_pixel_frame() {
    let mut c = Canvas::new(2, 1);
    c.put_pixel(1, 0, white());
    let frame = c.into_render_frame();
    assert_eq!(
        frame,
        RenderFrame::Pixels { width: 2, height: 1, data: vec![0, 0, 0, 255, 255, 255, 255, 255] }
    );
}

#[test]
fn fill_circle_paints_the_disc() {
    let mut c = Canvas::new(5, 5);
    c.fill_circle(2, 2, 1, red());
    for y in 0..5i32 {
        for x in 0..5i32 {
            let inside = (x - 2) * (x - 2) + (y - 2) * (y - 2) <= 1;
            let expected = if inside { red() } else { black() };
            assert_eq!(pixel(&c, x as u32, y as u32), expected);
        }
    }
    let snapshot = c.pixels.clone();
    c.fill_circle(2, 2, -1, blue());
    assert_eq!(c.pixels, snapshot);
    c.fill_circle(0, 0, 0, blue());
    assert_eq!(pixel(&c, 0, 0), blue());
    assert_eq!(pixel(&c, 1, 0), black());
}

#[test]
fn png_outcome_keeps_bytes_and_maps_encoder_errors() {
    assert_eq!(png_outcome(Ok(vec![1, 2, 3])), Ok(vec![1, 2, 3]));
    let failure = image::ImageError::IoError(std::io::Error::new(std::io::ErrorKind::Other, "disk"));
    let err = png_outcome(Err(failure)).unwrap_err();
    assert!(matches!(err, GymError::Other(_)));
    assert!(err.message().contains("disk"));
}

#[test]
fn pixel_layout_follows_the_data_length() {
    assert_eq!(pixel_layout(2, 3, 18), Some(PixelLayout::Rgb));
    assert_eq!(pixel_layout(2, 3, 24), Some(PixelLayout::Rgba));
    assert_eq!(pixel_layout(2, 3, 20), None);
    assert_eq!(pixel_layout(0, 5, 0), Some(PixelLayout::Rgb));
    assert_eq!(pixel_layout(u32::MAX, u32::MAX, 7), None);
    assert_eq!(PixelLayout::Rgb.channels(), 3);
    assert_eq!(PixelLayout::Rgba.channels(), 4);
}

#[test]
fn encode_succeeds_exactly_for_non_empty_images() {
    assert!(encode_pixels_png(1, 1, &vec![9, 9, 9]).is_ok());
    assert!(encode_pixels_png(3, 1, &vec![0; 12]).is_ok());
    let err = encode_pixels_png(0, 5, &vec![]).unwrap_err();
    assert!(matches!(err, GymError::Other(_)));
    let err = encode_pixels_png(5, 0, &vec![]).unwrap_err();
    assert!(matches!(err, GymError::Other(_)));
}
