use jepa::canvas::{Canvas, Color};
use jepa::frame::{centre_square, crop, crop_roi, model_input_image, to_model_view, PixelRoi, MODEL_VIEW_SIZE};

fn gradient(w: u32, h: u32) -> Canvas {
    let mut px = Vec::new();
    for y in 0..h {
        for x in 0..w {
            px.push(Color { r: x as u8, g: y as u8, b: 7 });
        }
    }
    Canvas::from_pixels(w, h, px).unwrap()
}

fn solid(w: u32, h: u32, c: Color) -> Canvas {
    Canvas::from_pixels(w, h, vec![c; (w * h) as usize]).unwrap()
}

#[test]
fn centre_square_of_landscape_and_portrait() {
    assert_eq!(centre_square(640, 480), (80, 0, 480));
    assert_eq!(centre_square(480, 640), (0, 80, 480));
    assert_eq!(centre_square(5, 5), (0, 0, 5));
    assert_eq!(centre_square(7, 4), (1, 0, 4));
}

#[test]
fn crop_keeps_the_rectangle() {
    let img = gradient(4, 3);
    let c = crop(&img, 1, 1, 2, 2);
    assert_eq!((c.width_px(), c.height_px()), (2, 2));
    let px = c.into_pixels();
    assert_eq!(px[0], Color { r: 1, g: 1, b: 7 });
    assert_eq!(px[1], Color { r: 2, g: 1, b: 7 });
    assert_eq!(px[2], Color { r: 1, g: 2, b: 7 });
    assert_eq!(px[3], Color { r: 2, g: 2, b: 7 });
}

#[test]
fn model_view_is_square_at_model_size() {
    let green = Color { r: 10, g: 200, b: 30 };
    let v = to_model_view(&solid(64, 48, green), MODEL_VIEW_SIZE);
    assert_eq!((v.width_px(), v.height_px()), (MODEL_VIEW_SIZE, MODEL_VIEW_SIZE));
    assert!(v.into_pixels().iter().all(|p| *p == green));
}

#[test]
fn model_view_downscales() {
    let v = to_model_view(&gradient(8, 6), 3);
    assert_eq!((v.width_px(), v.height_px()), (3, 3));
    assert_eq!(v.into_pixels().len(), 9);
}

#[test]
fn roi_is_clamped_onto_the_frame_and_never_empty() {
    let img = gradient(10, 8);
    // Inside the frame.
    let c = crop_roi(&img, &PixelRoi { x: 2, y: 3, w: 4, h: 2 });
    assert_eq!((c.width_px(), c.height_px()), (4, 2));
    assert_eq!(c.into_pixels()[0], Color { r: 2, g: 3, b: 7 });
    // Past the right and bottom edges: clipped to what is left.
    let c = crop_roi(&img, &PixelRoi { x: 8, y: 7, w: 5, h: 5 });
    assert_eq!((c.width_px(), c.height_px()), (2, 1));
    // Negative corner and empty size: one pixel at the origin.
    let c = crop_roi(&img, &PixelRoi { x: -3, y: -1, w: 0, h: -2 });
    assert_eq!((c.width_px(), c.height_px()), (1, 1));
    assert_eq!(c.into_pixels()[0], Color { r: 0, g: 0, b: 7 });
    // A corner past the frame lands on the last pixel.
    let c = crop_roi(&img, &PixelRoi { x: 50, y: 50, w: 3, h: 3 });
    assert_eq!((c.width_px(), c.height_px()), (1, 1));
    assert_eq!(c.into_pixels()[0], Color { r: 9, g: 7, b: 7 });
}

#[test]
fn model_input_without_roi_is_the_frame() {
    let c = model_input_image(gradient(3, 2), None);
    assert_eq!((c.width_px(), c.height_px()), (3, 2));
    let roi = PixelRoi { x: 1, y: 0, w: 1, h: 1 };
    let c = model_input_image(gradient(3, 2), Some(&roi));
    assert_eq!(c.into_pixels(), vec![Color { r: 1, g: 0, b: 7 }]);
}

#[test]
fn rgb_bytes_round_trip() {
    let img = gradient(3, 2);
    let bytes = img.to_rgb_bytes();
    assert_eq!(bytes.len(), 18);
    assert_eq!(&bytes[3..6], &[1, 0, 7]);
    let back = Canvas::from_bytes(3, 2, &bytes, 3);
    assert_eq!(back.into_pixels(), gradient(3, 2).into_pixels());
}

fn from_fn(w: u32, h: u32, f: impl Fn(u32, u32) -> Color) -> Canvas {
    let mut px = Vec::new();
    for y in 0..h {
        for x in 0..w {
            px.push(f(x, y));
        }
    }
    Canvas::from_pixels(w, h, px).unwrap()
}

const RED: Color = Color { r: 255, g: 0, b: 0 };
const GREEN: Color = Color { r: 0, g: 255, b: 0 };

/// A normalised region of interest in pixels, as the application rounds it.
fn roi_px(w: u32, h: u32, x: f32, y: f32, rw: f32, rh: f32) -> PixelRoi {
    PixelRoi {
        x: (x * w as f32).round() as i64,
        y: (y * h as f32).round() as i64,
        w: (rw * w as f32).round() as i64,
        h: (rh * h as f32).round() as i64,
    }
}

#[test]
fn model_view_is_square_centre_crop() {
    let img = from_fn(640, 360, |x, _| if !(140..500).contains(&x) { RED } else { GREEN });
    let view = to_model_view(&img, 224);
    assert_eq!((view.width_px(), view.height_px()), (224, 224));
    // Red side bands are cropped away: every pixel is green.
    assert!(view.into_pixels().iter().all(|p| p.g > 200 && p.r < 50));
}
