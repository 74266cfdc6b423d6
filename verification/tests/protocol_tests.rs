use jepa::protocol::{
    checksum, frame, parse_u16_response, read_u16_request, sync_write_u16, write_u16, write_u8, BROADCAST_ID, HEADER,
    INSTR_READ, INSTR_SYNC_WRITE, INSTR_WRITE, REG_GOAL_POSITION, REG_TORQUE_ENABLE,
};

#[test]
fn frames_have_valid_checksums() {
    let f = write_u16(1, REG_GOAL_POSITION, 2048);
    assert_eq!(&f[..2], &HEADER);
    assert_eq!(f[2], 1);
    assert_eq!(f[3], 5);
    assert_eq!(f[4], INSTR_WRITE);
    assert_eq!(&f[5..8], &[0x2A, 0x00, 0x08]);
    let body_sum: u32 = f[2..f.len() - 1].iter().map(|b| *b as u32).sum();
    assert_eq!(f[f.len() - 1], !(body_sum as u8));

    let s = sync_write_u16(REG_GOAL_POSITION, &[(1, 100), (2, 200)]);
    assert_eq!(s[2], BROADCAST_ID);
    assert_eq!(s[4], INSTR_SYNC_WRITE);
    assert_eq!(s.len(), 2 + 3 + 2 + 6 + 1);

    let mut resp = frame(3, 0, &[0x00, 0x10]);
    // Turn the frame into a status packet: ERR byte then data.
    resp[4] = 0;
    let resp = {
        let body = [3u8, 4, 0, 0x00, 0x10];
        let mut v = HEADER.to_vec();
        v.extend_from_slice(&body);
        v.push(!(body.iter().map(|b| *b as u32).sum::<u32>() as u8));
        v
    };
    assert_eq!(parse_u16_response(&resp, 3), Some(0x1000));
    assert_eq!(parse_u16_response(&resp, 4), None);
}

#[test]
fn checksum_is_the_complement_of_the_byte_sum() {
    assert_eq!(checksum(&[]), 0xFF);
    assert_eq!(checksum(&[1, 5, 3, 0x2A, 0x00, 0x08]), !(1u8 + 5 + 3 + 0x2A + 8));
    // The sum wraps modulo 256.
    assert_eq!(checksum(&[0xFF, 0x02]), !0x01u8);
}

#[test]
fn requests_and_byte_writes_are_framed() {
    assert_eq!(read_u16_request(5, 0x38), vec![0xFF, 0xFF, 5, 4, INSTR_READ, 0x38, 2, !(5u8 + 4 + 2 + 0x38 + 2)]);
    assert_eq!(write_u8(7, REG_TORQUE_ENABLE, 1), vec![0xFF, 0xFF, 7, 4, INSTR_WRITE, 0x28, 1, !(7u8 + 4 + 3 + 0x28 + 1)]);
    let s = sync_write_u16(REG_GOAL_POSITION, &[(1, 0x1234)]);
    assert_eq!(&s[5..10], &[REG_GOAL_POSITION, 2, 1, 0x34, 0x12]);
}

#[test]
fn responses_are_found_after_noise_and_checked() {
    let body = [9u8, 4, 0, 0x34, 0x12];
    let chk = !(body.iter().map(|b| *b as u32).sum::<u32>() as u8);
    let mut buf = vec![0x00, 0x13];
    buf.extend_from_slice(&HEADER);
    buf.extend_from_slice(&body);
    buf.push(chk);
    assert_eq!(parse_u16_response(&buf, 9), Some(0x1234));
    let mut bad = buf.clone();
    let last = bad.len() - 1;
    bad[last] ^= 1;
    assert_eq!(parse_u16_response(&bad, 9), None);
    assert_eq!(parse_u16_response(&buf[..6], 9), None);
    assert_eq!(parse_u16_response(&[1, 2, 3], 9), None);
}
