use base64::prelude::BASE64_STANDARD;
use base64::Engine;
use jepa::data_uri::{data_uri_payload, decode_data_uri, image_bytes_or_rejection};

#[test]
fn payload_is_after_the_last_comma_and_trimmed() {
    assert_eq!(data_uri_payload("data:image/png;base64,aGVsbG8="), "aGVsbG8=");
    assert_eq!(data_uri_payload("  aGk=  "), "aGk=");
    assert_eq!(data_uri_payload("a,b, c "), "c");
    assert_eq!(data_uri_payload("trailing,"), "");
}

#[test]
fn data_uris_and_bare_base64_decode() {
    assert_eq!(decode_data_uri("data:image/png;base64,aGVsbG8=").unwrap(), b"hello".to_vec());
    assert_eq!(decode_data_uri("aGVsbG8=").unwrap(), b"hello".to_vec());
    assert_eq!(decode_data_uri(" aGk= ").unwrap(), b"hi".to_vec());
    assert_eq!(decode_data_uri("data:,").unwrap(), Vec::<u8>::new());
}

#[test]
fn garbage_is_a_400_with_the_decoder_message() {
    let err = decode_data_uri("!!!").unwrap_err();
    assert_eq!(err.status, 400);
    let expected = format!("Invalid base64 image: {}", BASE64_STANDARD.decode("!!!").unwrap_err());
    assert_eq!(err.message, expected);
}

#[test]
fn decoded_results_map_to_answers() {
    assert_eq!(image_bytes_or_rejection(Ok(vec![1, 2])).unwrap(), vec![1, 2]);
    let rej = image_bytes_or_rejection(Err("bad".to_string())).unwrap_err();
    assert_eq!((rej.status, rej.message.as_str()), (400, "Invalid base64 image: bad"));
}
