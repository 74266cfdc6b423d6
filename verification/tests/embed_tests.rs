use jepa::api::{stream_on_error, stream_on_success, stream_on_tick, StreamCursor};
use image::codecs::gif::GifEncoder;
use image::{Frame, Rgba, RgbaImage};
use jepa::api::{embed_route, EmbedRoute};
use jepa::config::{MAX_IMAGE_PAYLOAD_SIZE, MAX_VIDEO_PAYLOAD_SIZE};

fn png_header(len: usize) -> Vec<u8> {
    let mut v = vec![0x89, 0x50, 0x4E, 0x47, 0x0D, 0x0A, 0x1A, 0x0A, 0, 0, 0, 0];
    v.resize(len, 0);
    v
}

#[test]
fn audio_comes_first() {
    assert_eq!(embed_route(b"RIFF\0\0\0\0WAVEfmt ").unwrap(), EmbedRoute::Audio);
    assert_eq!(embed_route(b"fLaC\0\0\0\0\0\0\0\0").unwrap(), EmbedRoute::Audio);
}

#[test]
fn stills_are_images_and_capped() {
    assert_eq!(embed_route(&png_header(64)).unwrap(), EmbedRoute::Image);
    assert_eq!(embed_route(&[0xFF, 0xD8, 0xFF, 0, 0, 0, 0, 0, 0, 0, 0, 0]).unwrap(), EmbedRoute::Image);
    let big = embed_route(&png_header(MAX_IMAGE_PAYLOAD_SIZE + 1)).unwrap_err();
    assert_eq!((big.status, big.message.as_str()), (413, "Image payload exceeds 20 MB maximum limit"));
    // A still WebP (its frames do not decode) is an image.
    assert_eq!(embed_route(b"RIFF\0\0\0\0WEBPVP8 ").unwrap(), EmbedRoute::Image);
}

#[test]
fn clips_and_oversized_uploads() {
    let mut gif = Vec::new();
    {
        let mut enc = GifEncoder::new(&mut gif);
        enc.encode_frame(Frame::new(RgbaImage::from_pixel(4, 4, Rgba([1, 2, 3, 255])))).unwrap();
    }
    assert_eq!(embed_route(&gif).unwrap(), EmbedRoute::Clip);
    assert_eq!(embed_route(b"\0\0\0\x18ftypisom").unwrap(), EmbedRoute::Clip);
    let huge = embed_route(&png_header(MAX_VIDEO_PAYLOAD_SIZE + 1)).unwrap_err();
    assert_eq!((huge.status, huge.message.as_str()), (413, "Payload exceeds 200 MB maximum limit"));
}

#[test]
fn unknown_containers_are_unsupported_media() {
    let e = embed_route(b"hello world!").unwrap_err();
    assert_eq!(e.status, 415);
    assert_eq!(
        e.message,
        "Invalid request payload: Unsupported media format. Expected PNG, JPEG, WebP, MP4, or WebM"
    );
    let e = embed_route(&[1, 2]).unwrap_err();
    assert_eq!(e.message, "Invalid request payload: Payload buffer too short to determine format");
}

#[test]
fn stream_sends_one_event_per_new_frame_and_each_error_once() {
    let mut c = StreamCursor::new();
    assert!(!stream_on_tick(&mut c, None));
    assert!(stream_on_tick(&mut c, Some(1)));
    assert!(!stream_on_tick(&mut c, Some(1)));
    assert!(stream_on_error(&mut c, "No model loaded".to_string()));
    assert!(stream_on_tick(&mut c, Some(2)));
    assert!(!stream_on_error(&mut c, "No model loaded".to_string()));
    assert!(stream_on_error(&mut c, "Camera is not running".to_string()));
    assert_eq!(stream_on_success(&mut c), 1);
    assert!(c.last_error.is_none());
    assert!(stream_on_error(&mut c, "Camera is not running".to_string()));
    assert_eq!(stream_on_success(&mut c), 2);
    assert_eq!(c.last_sequence, 2);
}
