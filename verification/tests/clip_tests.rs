use image::codecs::gif::GifEncoder;
use image::{Delay, Frame, Rgba, RgbaImage};
use jepa::canvas::Color;
use jepa::canvas::Canvas;
use jepa::clip::{decode_clip_bytes, DecodedClip};
use jepa::media::{sample_uniform, sniff_media_format};
use jepa::types::JepaError;

fn solid_gif(colors: &[[u8; 3]], side: u32) -> Vec<u8> {
    let mut bytes: Vec<u8> = Vec::new();
    {
        let mut encoder = GifEncoder::new(&mut bytes);
        let frames: Vec<Frame> = colors
            .iter()
            .map(|c| Frame::new(RgbaImage::from_pixel(side, side, Rgba([c[0], c[1], c[2], 255]))))
            .collect();
        encoder.encode_frames(frames).unwrap();
    }
    bytes
}

fn frames_of(r: Result<DecodedClip, JepaError>) -> Vec<Vec<Color>> {
    match r {
        Ok(DecodedClip::Frames(v)) => v.into_iter().map(|c| c.into_pixels()).collect(),
        Ok(DecodedClip::Container) => panic!("expected frames, got a container"),
        Err(e) => panic!("expected frames, got {:?}", e),
    }
}

#[test]
fn gif_frames_are_decoded_in_order() {
    let gif = solid_gif(&[[255, 0, 0], [0, 255, 0], [0, 0, 255]], 2);
    let frames = frames_of(decode_clip_bytes(&gif, 16));
    assert_eq!(frames.len(), 3);
    assert!(frames[0].iter().all(|p| *p == Color { r: 255, g: 0, b: 0 }));
    assert!(frames[1].iter().all(|p| *p == Color { r: 0, g: 255, b: 0 }));
    assert!(frames[2].iter().all(|p| *p == Color { r: 0, g: 0, b: 255 }));
    assert!(frames.iter().all(|f| f.len() == 4));
}

#[test]
fn gif_decoding_stops_at_the_frame_cap() {
    let gif = solid_gif(&[[255, 0, 0], [0, 255, 0], [0, 0, 255]], 2);
    assert_eq!(frames_of(decode_clip_bytes(&gif, 2)).len(), 2);
    // The first frame is always kept.
    assert_eq!(frames_of(decode_clip_bytes(&gif, 0)).len(), 1);
}

#[test]
fn containers_are_left_to_the_external_decoder() {
    assert!(matches!(decode_clip_bytes(b"\0\0\0\x18ftypisom", 8), Ok(DecodedClip::Container)));
    assert!(matches!(
        decode_clip_bytes(&[0x1A, 0x45, 0xDF, 0xA3, 0, 0, 0, 0, 0, 0, 0, 0], 8),
        Ok(DecodedClip::Container)
    ));
}

#[test]
fn still_images_are_not_clips() {
    let png = [0x89, 0x50, 0x4E, 0x47, 0x0D, 0x0A, 0x1A, 0x0A, 0, 0, 0, 0];
    match decode_clip_bytes(&png, 8) {
        Err(JepaError::InvalidPayload(m)) => assert_eq!(m, "'png' is not a video format"),
        other => panic!("unexpected {:?}", other.err()),
    }
    match decode_clip_bytes(&[0xFF, 0xD8, 0xFF, 0, 0, 0, 0, 0, 0, 0, 0, 0], 8) {
        Err(JepaError::InvalidPayload(m)) => assert_eq!(m, "'jpeg' is not a video format"),
        other => panic!("unexpected {:?}", other.err()),
    }
}

#[test]
fn unknown_or_short_bytes_are_refused() {
    assert!(matches!(decode_clip_bytes(b"hello world!", 8), Err(JepaError::InvalidPayload(_))));
    assert!(matches!(decode_clip_bytes(&[1, 2], 8), Err(JepaError::InvalidPayload(_))));
}

#[test]
fn corrupt_gif_is_an_image_error() {
    let bytes = b"GIF89a\x01\x00\x01\x00\x00\x00";
    assert!(matches!(decode_clip_bytes(bytes, 8), Err(JepaError::ImageProcessing(_))));
}

#[test]
fn rgba_alpha_is_dropped() {
    let rgba = vec![1, 2, 3, 4, 5, 6, 7, 8, 9, 9, 9, 9];
    let c = Canvas::from_bytes(2, 1, &rgba, 4);
    assert_eq!(c.width_px(), 2);
    assert_eq!(c.height_px(), 1);
    assert_eq!(c.into_pixels(), vec![Color { r: 1, g: 2, b: 3 }, Color { r: 5, g: 6, b: 7 }]);
}

fn demo_gif(frames: usize, side: u32) -> Vec<u8> {
    let mut buf = Vec::new();
    {
        let mut enc = GifEncoder::new(&mut buf);
        for i in 0..frames {
            let img = RgbaImage::from_fn(side, side, |x, _| {
                let on = ((x / 8) as usize + i) % 2 == 0;
                if on {
                    Rgba([255, 255, 255, 255])
                } else {
                    Rgba([0, 0, 0, 255])
                }
            });
            enc.encode_frame(Frame::from_parts(img, 0, 0, Delay::from_numer_denom_ms(100, 1))).unwrap();
        }
    }
    buf
}

#[test]
fn gif_is_decoded_natively_and_sampled() {
    let gif = demo_gif(6, 32);
    assert_eq!(sniff_media_format(&gif).unwrap(), "gif");
    let frames = match decode_clip_bytes(&gif, 100) {
        Ok(DecodedClip::Frames(v)) => v,
        _ => panic!("expected frames"),
    };
    assert_eq!(frames.len(), 6);
    assert_eq!((frames[0].width_px(), frames[0].height_px()), (32, 32));
    let sizes: Vec<(u32, u32)> = frames.iter().map(|f| (f.width_px(), f.height_px())).collect();
    assert_eq!(sample_uniform(&sizes, 4).len(), 4);
    assert_eq!(sample_uniform(&sizes, 16).len(), 16);
    assert_eq!(frames_of(decode_clip_bytes(&gif, 2)).len(), 2);
}

#[test]
fn containers_need_ffmpeg_and_say_so() {
    // The library hands MP4/WebM to the external decoder; whether `ffmpeg` is there
    // is the application's to say.
    let fake_mp4 = [b"\0\0\0\x18ftypisom".as_slice(), &[0u8; 32]].concat();
    assert!(matches!(decode_clip_bytes(&fake_mp4, 8), Ok(DecodedClip::Container)));
    assert!(decode_clip_bytes(b"not a video at all, really", 8).is_err());
}

#[test]
fn a_still_webp_is_not_an_animation() {
    let mut bytes: Vec<u8> = Vec::new();
    {
        let img = RgbaImage::from_pixel(4, 4, Rgba([10, 20, 30, 255]));
        image::codecs::webp::WebPEncoder::new_lossless(&mut bytes)
            .encode(img.as_raw(), 4, 4, image::ExtendedColorType::Rgba8)
            .unwrap();
    }
    assert_eq!(sniff_media_format(&bytes).unwrap(), "webp");
    match decode_clip_bytes(&bytes, 8) {
        Err(JepaError::InvalidPayload(m)) => assert_eq!(m, "WebP file is a still image, not an animation"),
        other => panic!("unexpected {:?}", other.err()),
    }
}


#[test]
fn oversized_images_are_refused_before_allocation() {
    // A PNG header claiming 100000 x 100000 pixels: refused by the limits, not by OOM.
    let mut png = vec![0x89, b'P', b'N', b'G', 0x0D, 0x0A, 0x1A, 0x0A, 0, 0, 0, 13, b'I', b'H', b'D', b'R'];
    png.extend_from_slice(&100_000u32.to_be_bytes());
    png.extend_from_slice(&100_000u32.to_be_bytes());
    png.extend_from_slice(&[8, 2, 0, 0, 0, 0, 0, 0, 0]);
    let err = jepa::frame::decode_image_bytes(&png).err().unwrap().message();
    assert!(!err.is_empty());
    let frames = frames_of(decode_clip_bytes(&demo_gif(3, 16), 100));
    assert_eq!(frames.len(), 3);
}

#[test]
fn still_images_decode_to_their_pixels() {
    let img = image::RgbImage::from_fn(3, 2, |x, y| image::Rgb([x as u8 * 50, y as u8 * 100, 7]));
    let mut png: Vec<u8> = Vec::new();
    img.write_to(&mut std::io::Cursor::new(&mut png), image::ImageFormat::Png).unwrap();
    let c = jepa::frame::decode_image_bytes(&png).unwrap();
    assert_eq!((c.width_px(), c.height_px()), (3, 2));
    let px = c.into_pixels();
    assert_eq!(px[4], Color { r: 50, g: 100, b: 7 });
    assert!(matches!(jepa::frame::decode_image_bytes(b"hello world!"), Err(JepaError::InvalidPayload(_))));
    // Recognised container, undecodable content.
    assert!(matches!(jepa::frame::decode_image_bytes(b"\0\0\0\x18ftypisom\0\0\0\0"), Err(JepaError::ImageProcessing(_))));
}
