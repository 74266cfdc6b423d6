use jepa::media::{
    is_audio_format, is_video_format, sample_uniform, sniff_audio_format, sniff_media_format, AnimationBudget,
    MAX_DECODED_FRAMES,
};

#[test]
fn sniff_detects_formats() {
    assert_eq!(sniff_media_format(&[0x89, 0x50, 0x4E, 0x47, 0x0D, 0x0A, 0x1A, 0x0A, 0, 0, 0, 0]).unwrap(), "png");
    assert_eq!(sniff_media_format(&[0xFF, 0xD8, 0xFF, 0, 0, 0, 0, 0, 0, 0, 0, 0]).unwrap(), "jpeg");
    assert_eq!(sniff_media_format(b"RIFF\0\0\0\0WEBPVP8 ").unwrap(), "webp");
    assert!(sniff_media_format(b"hello world!").is_err());
    assert!(sniff_media_format(&[1, 2]).is_err());
}

#[test]
fn sniff_detects_video_containers() {
    assert_eq!(sniff_media_format(b"GIF89a\0\0\0\0\0\0").unwrap(), "gif");
    assert_eq!(sniff_media_format(b"GIF87a\0\0\0\0\0\0").unwrap(), "gif");
    assert_eq!(sniff_media_format(b"\0\0\0\x18ftypisom").unwrap(), "mp4");
    assert_eq!(sniff_media_format(&[0x1A, 0x45, 0xDF, 0xA3, 0, 0, 0, 0, 0, 0, 0, 0]).unwrap(), "webm");
    // A RIFF that is not WebP is not an image.
    assert!(sniff_media_format(b"RIFF\0\0\0\0WAVEfmt ").is_err());
}

#[test]
fn sniff_detects_audio_containers() {
    assert_eq!(sniff_audio_format(b"RIFF....WAVE"), Some("wav"));
    assert_eq!(sniff_audio_format(b"ID3\x03"), Some("mp3"));
    assert_eq!(sniff_audio_format(&[0xFF, 0xFB, 0x90]), Some("mp3"));
    assert_eq!(sniff_audio_format(b"fLaC"), Some("flac"));
    assert_eq!(sniff_audio_format(b"OggS"), Some("ogg"));
    assert_eq!(sniff_audio_format(b"RIFF"), None);
    assert_eq!(sniff_audio_format(&[0xFF, 0x10]), None);
}

#[test]
fn format_families() {
    assert!(is_audio_format("wav") && is_audio_format("flac"));
    assert!(!is_audio_format("gif"));
    assert!(is_video_format("gif") && is_video_format("webm"));
    assert!(!is_video_format("png"));
}

#[test]
fn uniform_sampling_spreads_and_repeats() {
    let frames: Vec<u32> = (0..10).collect();
    assert_eq!(sample_uniform(&frames, 4), vec![0, 2, 5, 7]);
    let short: Vec<u32> = vec![7, 8];
    assert_eq!(sample_uniform(&short, 4), vec![7, 7, 8, 8]);
    assert!(sample_uniform::<u32>(&[], 4).is_empty());
    assert!(sample_uniform(&frames, 0).is_empty());
}

#[test]
fn animation_budget_stops_at_frame_limit() {
    let mut b = AnimationBudget::new(3);
    assert!(b.record_frame(10, 10));
    assert!(b.record_frame(10, 10));
    assert!(!b.record_frame(10, 10));
    assert_eq!(b.kept_frames(), 3);
    assert!(b.finish().is_ok());
    let empty = AnimationBudget::new(3);
    assert!(empty.finish().is_err());
    let mut big = AnimationBudget::new(100_000);
    for _ in 0..(MAX_DECODED_FRAMES - 1) {
        assert!(big.record_frame(1, 1));
    }
    assert!(!big.record_frame(1, 1));
}

#[test]
fn animation_budget_stops_at_pixel_limit() {
    let mut b = AnimationBudget::new(10);
    assert!(!b.record_frame(16384, 16384));
    assert_eq!(b.kept_frames(), 1);
}
