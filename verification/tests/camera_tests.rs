use jepa::api::CameraSource as S;
use jepa::camera::{camera_step, CameraAction as A, CameraEvent as E};
use jepa::camera::{
    latest_full_frame_jpeg, latest_model_view_jpeg, push_camera_frame, thumbnails, CameraFrame, THUMBNAIL_HEIGHT,
    THUMBNAIL_WIDTH,
};
use jepa::canvas::{Canvas, Color};
use jepa::data_uri::decode_data_uri;
use jepa::frame::{crop_roi, PixelRoi, MODEL_VIEW_SIZE};
use jepa::window::RingBuffer;

const RED: Color = Color { r: 255, g: 0, b: 0 };
const GREEN: Color = Color { r: 0, g: 255, b: 0 };

fn from_fn(w: u32, h: u32, f: impl Fn(u32, u32) -> Color) -> Canvas {
    let mut px = Vec::new();
    for y in 0..h {
        for x in 0..w {
            px.push(f(x, y));
        }
    }
    Canvas::from_pixels(w, h, px).unwrap()
}

/// A normalised region of interest in pixels, as the application rounds it.
fn roi_px(w: u32, h: u32, x: f32, y: f32, rw: f32, rh: f32) -> PixelRoi {
    PixelRoi {
        x: (x * w as f32).round() as i64,
        y: (y * h as f32).round() as i64,
        w: (rw * w as f32).round() as i64,
        h: (rh * h as f32).round() as i64,
    }
}

fn decode(jpeg: &[u8]) -> image::RgbImage {
    image::load_from_memory(jpeg).unwrap().to_rgb8()
}

#[test]
fn roi_crop_selects_the_region() {
    // Left half red, right half green.
    let img = from_fn(200, 100, |x, _| if x < 100 { RED } else { GREEN });
    let right = crop_roi(&img, &roi_px(200, 100, 0.5, 0.0, 0.5, 1.0));
    assert_eq!((right.width_px(), right.height_px()), (100, 100));
    assert!(right.into_pixels().iter().all(|p| p.g == 255));
    // Out-of-range boxes are clamped, never empty.
    let tiny = crop_roi(&img, &roi_px(200, 100, 0.99, 0.99, 0.5, 0.5));
    assert!(tiny.width_px() >= 1 && tiny.height_px() >= 1);

    let mut rb: RingBuffer<CameraFrame> = RingBuffer::new(2);
    push_camera_frame(&mut rb, img, 0);
    let (jpeg, seq) = latest_model_view_jpeg(&rb, 32, Some(&roi_px(200, 100, 0.5, 0.0, 0.5, 1.0))).unwrap();
    assert_eq!(seq, 1);
    let decoded = decode(&jpeg);
    assert_eq!((decoded.width(), decoded.height()), (32, 32));
    assert!(decoded.pixels().all(|p| p[1] > 200 && p[0] < 60));
    assert!(latest_full_frame_jpeg(&rb, 64).is_some());
}

#[test]
fn ring_buffer_keeps_capacity_and_sequence() {
    let mut rb: RingBuffer<CameraFrame> = RingBuffer::new(3);
    for i in 0..5 {
        push_camera_frame(&mut rb, from_fn(8, 8, |_, _| Color { r: 0, g: 0, b: 0 }), i);
    }
    assert_eq!(rb.len(), 3);
    assert_eq!(rb.latest().unwrap().sequence, 5);
    assert_eq!(rb.latest().unwrap().timestamp_ms, 4);
    assert!(!rb.latest().unwrap().payload.model_view_jpeg.is_empty());
}

#[test]
fn frames_carry_a_thumbnail_and_the_model_view() {
    let mut rb: RingBuffer<CameraFrame> = RingBuffer::new(4);
    push_camera_frame(&mut rb, from_fn(64, 48, |_, _| GREEN), 7);
    let thumbs = thumbnails(&rb);
    assert_eq!(thumbs.len(), 1);
    assert!(thumbs[0].starts_with("data:image/jpeg;base64,"));
    let thumb = decode(&decode_data_uri(&thumbs[0]).unwrap());
    assert_eq!((thumb.width(), thumb.height()), (THUMBNAIL_WIDTH, THUMBNAIL_HEIGHT));
    let view = decode(&rb.latest().unwrap().payload.model_view_jpeg);
    assert_eq!((view.width(), view.height()), (MODEL_VIEW_SIZE, MODEL_VIEW_SIZE));
    // Without a region the JPEG made at capture comes back.
    let (jpeg, seq) = latest_model_view_jpeg(&rb, 32, None).unwrap();
    assert_eq!(jpeg, rb.latest().unwrap().payload.model_view_jpeg);
    assert_eq!(seq, 1);
}

#[test]
fn full_frame_is_fitted_only_when_larger() {
    let mut rb: RingBuffer<CameraFrame> = RingBuffer::new(2);
    assert!(latest_full_frame_jpeg(&rb, 64).is_none());
    push_camera_frame(&mut rb, from_fn(200, 100, |_, _| RED), 0);
    let (jpeg, seq, w, h) = latest_full_frame_jpeg(&rb, 64).unwrap();
    assert_eq!((seq, w, h), (1, 200, 100));
    let small = decode(&jpeg);
    assert_eq!((small.width(), small.height()), (64, 32));
    push_camera_frame(&mut rb, from_fn(20, 10, |_, _| RED), 1);
    let (jpeg, _, w, h) = latest_full_frame_jpeg(&rb, 64).unwrap();
    assert_eq!((w, h), (20, 10));
    let same = decode(&jpeg);
    assert_eq!((same.width(), same.height()), (20, 10));
}

#[test]
fn capture_falls_back_to_the_synthetic_pattern() {
    assert_eq!(camera_step(S::Opening, E::DeviceOpened), (S::Device, A::RunDevice));
    assert_eq!(camera_step(S::Opening, E::DeviceFailed), (S::Synthetic, A::StartSynthetic));
    assert_eq!(camera_step(S::Opening, E::OpenTimedOut), (S::Synthetic, A::StartSynthetic));
    // The device answers after the pattern took over: it is dropped.
    assert_eq!(camera_step(S::Synthetic, E::DeviceOpened), (S::Synthetic, A::DropDevice));
    assert_eq!(camera_step(S::Synthetic, E::DeviceFailed), (S::Synthetic, A::Nothing));
    // A late timeout does not disturb a working device.
    assert_eq!(camera_step(S::Device, E::OpenTimedOut), (S::Device, A::Nothing));
    assert_eq!(camera_step(S::Device, E::Stop), (S::Off, A::StopProducer));
    // A late answer after a stop sets the source but produces nothing.
    assert_eq!(camera_step(S::Off, E::DeviceOpened), (S::Device, A::DropDevice));
    assert_eq!(camera_step(S::Off, E::DeviceFailed), (S::Synthetic, A::Nothing));
    assert_eq!(camera_step(S::Off, E::OpenTimedOut), (S::Off, A::Nothing));
}

#[test]
fn camera_fallback_messages_say_why() {
    assert_eq!(
        jepa::camera::timeout_message(0),
        "Camera 0 produced no frame within 6 s (on macOS: allow camera access for the app or terminal that launched jepctl in System Settings > Privacy & Security > Camera). Using the synthetic test pattern."
    );
    assert_eq!(
        jepa::camera::open_failure_message(1, "No such device"),
        "Could not open camera 1: No such device. Using the synthetic test pattern."
    );
    assert_eq!(
        jepa::camera::open_failure_message(2, "Device or resource busy"),
        "Could not open camera 2: Device or resource busy. The device is held by another application or another jepctl instance: stop it and restart the camera. Using the synthetic test pattern."
    );
    assert!(jepa::camera::open_failure_message(0, "Lock Rejected").contains("held by another application"));
}
