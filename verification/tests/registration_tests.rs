use jepa::api::{input_source, InputSource};
use jepa::api::registration_name;
use jepa::registry::sample_dimension;
use jepa::types::JepaError;

#[test]
fn registration_names_are_trimmed_and_bounded_in_bytes() {
    assert_eq!(registration_name("  wave \n").unwrap(), "wave");
    let sixty_four = "x".repeat(64);
    assert_eq!(registration_name(&sixty_four).unwrap(), sixty_four);
    for bad in ["", "   ", &"x".repeat(65)] {
        let e = registration_name(bad).unwrap_err();
        assert_eq!(e.status, 400);
        assert_eq!(e.message, "'name' must be 1-64 characters");
    }
    // 22 characters of three bytes each: 66 bytes.
    assert!(registration_name(&"\u{20ac}".repeat(22)).is_err());
    assert_eq!(registration_name(&"\u{20ac}".repeat(21)).unwrap().chars().count(), 21);
}

#[test]
fn samples_must_match_the_gesture_dimension() {
    assert_eq!(sample_dimension(0, 2).unwrap(), 2);
    assert_eq!(sample_dimension(2, 2).unwrap(), 2);
    match sample_dimension(2, 3) {
        Err(JepaError::InvalidPayload(m)) => {
            assert_eq!(m, "Embedding dimension 3 does not match gesture dimension 2")
        }
        other => panic!("unexpected {other:?}"),
    }
    assert!(matches!(sample_dimension(0, 0), Err(JepaError::InvalidPayload(m)) if m == "Empty embedding"));
}

#[test]
fn sample_requests_name_one_input() {
    assert_eq!(input_source(true, Some(0), true).unwrap(), InputSource::Camera);
    assert_eq!(input_source(false, Some(3), true).unwrap(), InputSource::Embedding);
    assert_eq!(input_source(false, None, true).unwrap(), InputSource::Image);
    let e = input_source(false, Some(0), true).unwrap_err();
    assert_eq!((e.status, e.message.as_str()), (400, "'embedding' must not be empty"));
    let e = input_source(false, None, false).unwrap_err();
    assert_eq!(e.status, 400);
    assert_eq!(e.message, "Provide one input: 'from_camera': true, 'embedding' or 'image_base64'");
}

#[test]
fn unicode_white_space_is_trimmed() {
    assert_eq!(registration_name("\u{3000}wave\u{2028}\u{85}").unwrap(), "wave");
    // A zero-width space is not white space.
    assert_eq!(registration_name("\u{200B}").unwrap(), "\u{200B}");
}

#[test]
fn white_space_agrees_with_std_on_every_char() {
    for u in 0u32..=0x10FFFF {
        if let Some(c) = char::from_u32(u) {
            assert_eq!(jepa::text::char_is_whitespace(c), c.is_whitespace(), "U+{u:04X}");
        }
    }
}
