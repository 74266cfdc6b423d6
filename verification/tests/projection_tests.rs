use jepa::projection::{projection_stream, PROJECTION_SEED};

#[test]
fn projection_stream_is_splitmix64() {
    // A width that cancels the seed gives the reference SplitMix64 stream of seed 0.
    let v = projection_stream(PROJECTION_SEED as usize, 4);
    assert_eq!(v, vec![0xe220a8397b1dcdaf, 0x6e789e6aa1b965f4, 0x06c45d188009454f, 0xf88bb8a8724c81ec]);
    // Deterministic for a width, different across widths.
    assert_eq!(projection_stream(768, 8), projection_stream(768, 8));
    assert_ne!(projection_stream(768, 8), projection_stream(1024, 8));
    assert_eq!(projection_stream(768, 0), Vec::<u64>::new());
}
