use jepa::wav::{audio_route, AudioRoute};
use jepa::types::JepaError;
use jepa::wav::{full_scale, pcm_value, sample_word, wav_layout, WavEncoding};

fn wav(fmt_tag: u16, channels: u16, rate: u32, bits: u16, data: &[u8]) -> Vec<u8> {
    let mut w = Vec::new();
    w.extend_from_slice(b"RIFF");
    w.extend_from_slice(&((36 + data.len()) as u32).to_le_bytes());
    w.extend_from_slice(b"WAVEfmt ");
    w.extend_from_slice(&16u32.to_le_bytes());
    w.extend_from_slice(&fmt_tag.to_le_bytes());
    w.extend_from_slice(&channels.to_le_bytes());
    w.extend_from_slice(&rate.to_le_bytes());
    w.extend_from_slice(&(rate * u32::from(bits) / 8 * u32::from(channels)).to_le_bytes());
    w.extend_from_slice(&(bits / 8 * channels).to_le_bytes());
    w.extend_from_slice(&bits.to_le_bytes());
    w.extend_from_slice(b"data");
    w.extend_from_slice(&(data.len() as u32).to_le_bytes());
    w.extend_from_slice(data);
    w
}

#[test]
fn pcm16_layout_and_samples() {
    let mut data = Vec::new();
    for v in [0i16, 1000, -1000, 32767, -32768] {
        data.extend_from_slice(&v.to_le_bytes());
    }
    let bytes = wav(1, 1, 16_000, 16, &data);
    let l = wav_layout(&bytes).unwrap();
    assert_eq!(l.encoding, WavEncoding::Pcm16);
    assert_eq!(l.channels, 1);
    assert_eq!(l.sample_rate, 16_000);
    assert_eq!(l.data_start, 44);
    assert_eq!(l.data_end, 54);
    assert_eq!(l.frame_count(), 5);
    let values: Vec<i64> = (0..5).map(|f| pcm_value(l.encoding, sample_word(&bytes, &l, f, 0))).collect();
    assert_eq!(values, vec![0, 1000, -1000, 32767, -32768]);
    assert_eq!(full_scale(WavEncoding::Pcm16), 32768);
}

#[test]
fn stereo_8_and_24_bit_samples() {
    let bytes = wav(1, 2, 8000, 8, &[128, 0, 255, 128]);
    let l = wav_layout(&bytes).unwrap();
    assert_eq!(l.frame_count(), 2);
    assert_eq!(pcm_value(l.encoding, sample_word(&bytes, &l, 0, 0)), 0);
    assert_eq!(pcm_value(l.encoding, sample_word(&bytes, &l, 0, 1)), -128);
    assert_eq!(pcm_value(l.encoding, sample_word(&bytes, &l, 1, 0)), 127);
    let bytes = wav(1, 1, 8000, 24, &[0xFF, 0xFF, 0xFF, 0x01, 0x00, 0x00]);
    let l = wav_layout(&bytes).unwrap();
    assert_eq!(pcm_value(l.encoding, sample_word(&bytes, &l, 0, 0)), -1);
    assert_eq!(pcm_value(l.encoding, sample_word(&bytes, &l, 1, 0)), 1);
}

#[test]
fn float_samples_keep_their_bit_pattern() {
    let bytes = wav(3, 1, 44_100, 32, &0.5f32.to_le_bytes());
    let l = wav_layout(&bytes).unwrap();
    assert_eq!(l.encoding, WavEncoding::Float32);
    assert_eq!(f32::from_bits(sample_word(&bytes, &l, 0, 0)), 0.5);
}

#[test]
fn extensible_format_uses_the_sub_format() {
    let mut w = Vec::new();
    w.extend_from_slice(b"RIFF\0\0\0\0WAVEfmt ");
    w.extend_from_slice(&40u32.to_le_bytes());
    w.extend_from_slice(&0xFFFEu16.to_le_bytes());
    w.extend_from_slice(&1u16.to_le_bytes());
    w.extend_from_slice(&48_000u32.to_le_bytes());
    w.extend_from_slice(&96_000u32.to_le_bytes());
    w.extend_from_slice(&2u16.to_le_bytes());
    w.extend_from_slice(&16u16.to_le_bytes());
    w.extend_from_slice(&22u16.to_le_bytes());
    w.extend_from_slice(&[0u8; 6]);
    w.extend_from_slice(&1u16.to_le_bytes());
    w.extend_from_slice(&[0u8; 14]);
    w.extend_from_slice(b"data");
    w.extend_from_slice(&4u32.to_le_bytes());
    w.extend_from_slice(&[1, 0, 2, 0]);
    let l = wav_layout(&w).unwrap();
    assert_eq!(l.encoding, WavEncoding::Pcm16);
    assert_eq!(l.frame_count(), 2);
}

#[test]
fn odd_chunks_are_padded_and_unknown_chunks_skipped() {
    let mut w = Vec::new();
    w.extend_from_slice(b"RIFF\0\0\0\0WAVE");
    w.extend_from_slice(b"LIST");
    w.extend_from_slice(&3u32.to_le_bytes());
    w.extend_from_slice(&[1, 2, 3, 0]);
    w.extend_from_slice(b"fmt ");
    w.extend_from_slice(&16u32.to_le_bytes());
    w.extend_from_slice(&1u16.to_le_bytes());
    w.extend_from_slice(&1u16.to_le_bytes());
    w.extend_from_slice(&8000u32.to_le_bytes());
    w.extend_from_slice(&8000u32.to_le_bytes());
    w.extend_from_slice(&1u16.to_le_bytes());
    w.extend_from_slice(&8u16.to_le_bytes());
    w.extend_from_slice(b"data");
    w.extend_from_slice(&100u32.to_le_bytes());
    w.extend_from_slice(&[200, 100]);
    let l = wav_layout(&w).unwrap();
    // The data chunk claims 100 bytes; only what is there is read.
    assert_eq!(l.data_end, w.len());
    assert_eq!(l.frame_count(), 2);
}

#[test]
fn malformed_files_are_refused() {
    assert!(matches!(wav_layout(b"RIFF\0\0\0\0WAVEjunk"), Err(JepaError::InvalidPayload(_))));
    assert!(matches!(wav_layout(b"RIFX\0\0\0\0WAVE"), Err(JepaError::InvalidPayload(m)) if m.contains("header")));
    assert!(wav_layout(&wav(2, 1, 8000, 16, &[0, 0])).is_err());
    assert!(matches!(wav_layout(&wav(1, 1, 8000, 12, &[0, 0])), Err(JepaError::InvalidPayload(m)) if m.contains("unsupported format 1 / 12 bits")));
    assert!(matches!(wav_layout(&wav(1, 1, 8000, 16, &[0])), Err(JepaError::InvalidPayload(m)) if m.contains("no samples")));
    assert!(matches!(wav_layout(&wav(1, 0, 8000, 16, &[0, 0])), Err(JepaError::InvalidPayload(m)) if m.contains("no fmt chunk")));
    let mut no_data = wav(1, 1, 8000, 16, &[0, 0]);
    no_data.truncate(36);
    assert!(matches!(wav_layout(&no_data), Err(JepaError::InvalidPayload(m)) if m.contains("no data chunk")));
    let mut short_fmt = b"RIFF\0\0\0\0WAVEfmt ".to_vec();
    short_fmt.extend_from_slice(&8u32.to_le_bytes());
    short_fmt.extend_from_slice(&[0u8; 8]);
    assert!(matches!(wav_layout(&short_fmt), Err(JepaError::InvalidPayload(m)) if m.contains("fmt chunk too short")));
}

#[test]
fn wav_refusals_carry_the_exact_reason() {
    let msg = |r: Result<jepa::wav::WavLayout, JepaError>| match r {
        Err(JepaError::InvalidPayload(m)) => m,
        _ => panic!("expected a refusal"),
    };
    assert_eq!(msg(wav_layout(b"RIFX\0\0\0\0WAVE")), "Invalid WAV: missing RIFF/WAVE header");
    assert_eq!(msg(wav_layout(&wav(3, 2, 8000, 64, &[0; 16]))), "Invalid WAV: unsupported format 3 / 64 bits");
    assert_eq!(msg(wav_layout(&wav(1, 1, 8000, 16, &[0]))), "Invalid WAV: no samples");
}

#[test]
fn audio_payloads_are_routed_by_container() {
    match audio_route(&wav(1, 1, 16_000, 16, &[0, 0, 1, 0])) {
        Ok(AudioRoute::Wav(l)) => {
            assert_eq!(l.sample_rate, 16_000);
            assert_eq!(l.frame_count(), 2);
        }
        other => panic!("unexpected {other:?}"),
    }
    assert!(matches!(audio_route(b"ID3\x03\0\0"), Ok(AudioRoute::Container("mp3"))));
    assert!(matches!(audio_route(b"fLaC\0\0\0\0"), Ok(AudioRoute::Container("flac"))));
    assert!(matches!(audio_route(b"OggS\0\0"), Ok(AudioRoute::Container("ogg"))));
    assert!(matches!(audio_route(b"RIFF\0\0\0\0WAVEjunk"), Err(JepaError::InvalidPayload(m)) if m == "Invalid WAV: no data chunk"));
    assert!(matches!(audio_route(b"GIF89a"), Err(JepaError::InvalidPayload(m)) if m == "Not a supported audio format (WAV, MP3, FLAC, OGG)"));
}
