//! Feetech STS / Dynamixel 1.0 style servo frames: `FF FF ID LEN INSTR PARAMS... CHK`.

use vstd::prelude::*;

verus! {

/// First byte of the two-byte frame header.
pub const HEADER_BYTE: u8 = 0xFF;

/// The frame header.
pub const HEADER: [u8; 2] = [0xFF, 0xFF];

/// Bus id that addresses every servo at once.
pub const BROADCAST_ID: u8 = 0xFE;

pub const INSTR_READ: u8 = 0x02;

pub const INSTR_WRITE: u8 = 0x03;

pub const INSTR_SYNC_WRITE: u8 = 0x83;

/// STS3215 register map (subset).
pub const REG_TORQUE_ENABLE: u8 = 0x28;

pub const REG_GOAL_POSITION: u8 = 0x2A;

pub const REG_PRESENT_POSITION: u8 = 0x38;

/// Sum of the bytes of `s`, modulo 256.
pub open spec fn byte_sum(s: Seq<u8>) -> nat
    decreases s.len(),
{
    if s.len() == 0 {
        0
    } else {
        ((byte_sum(s.drop_last()) + s.last()) % 256) as nat
    }
}

/// The protocol checksum: the bitwise complement of the byte sum.
pub open spec fn spec_checksum(body: Seq<u8>) -> u8 {
    (255 - byte_sum(body)) as u8
}

/// The bytes of a frame addressed to `id` with instruction `instr`.
pub open spec fn spec_frame(id: u8, instr: u8, params: Seq<u8>) -> Seq<u8> {
    let body = seq![id, ((params.len() + 2) % 256) as u8, instr] + params;
    seq![HEADER_BYTE, HEADER_BYTE] + body + seq![spec_checksum(body)]
}

/// Low byte of a 16 bit value.
pub open spec fn lo_byte(v: u16) -> u8 {
    (v % 256) as u8
}

/// High byte of a 16 bit value.
pub open spec fn hi_byte(v: u16) -> u8 {
    (v / 256) as u8
}

/// Little-endian 16 bit value of two bytes.
pub open spec fn le_u16(lo: u8, hi: u8) -> u16 {
    (lo + 256 * hi) as u16
}


/// Checksum of `buf[from..to]`.
fn checksum_range(buf: &[u8], from: usize, to: usize) -> (chk: u8)
    requires
        from <= to <= buf@.len(),
    ensures
        chk == spec_checksum(buf@.subrange(from as int, to as int)),
{
    let mut acc: u8 = 0;
    let mut i: usize = from;
    while i < to
        invariant
            from <= i <= to <= buf@.len(),
            acc as nat == byte_sum(buf@.subrange(from as int, i as int)),
        decreases to - i,
    {
        assert(buf@.subrange(from as int, i + 1).drop_last() =~= buf@.subrange(from as int, i as int));
        acc = acc.wrapping_add(buf[i]);
        i = i + 1;
    }
    255 - acc
}

/// The protocol checksum of `body`: the complement of the byte sum.
pub fn checksum(body: &[u8]) -> (chk: u8)
    ensures
        chk == spec_checksum(body@),
{
    let chk: u8 = checksum_range(body, 0, body.len());
    assert(body@.subrange(0, body@.len() as int) =~= body@);
    chk
}

/// `FF FF ID LEN INSTR PARAMS... CHK`
pub fn frame(id: u8, instr: u8, params: &[u8]) -> (out: Vec<u8>)
    requires
        params@.len() + 6 <= usize::MAX,
    ensures
        out@ == spec_frame(id, instr, params@),
{
    let len: u8 = ((params.len() + 2) % 256) as u8;
    let mut out: Vec<u8> = Vec::new();
    out.push(HEADER_BYTE);
    out.push(HEADER_BYTE);
    out.push(id);
    out.push(len);
    out.push(instr);
    let mut i: usize = 0;
    while i < params.len()
        invariant
            i <= params@.len(),
            out@ == seq![HEADER_BYTE, HEADER_BYTE, id, len, instr] + params@.subrange(0, i as int),
        decreases params@.len() - i,
    {
        out.push(params[i]);
        i = i + 1;
        assert(out@ =~= seq![HEADER_BYTE, HEADER_BYTE, id, len, instr] + params@.subrange(0, i as int));
    }
    let ghost body = seq![id, len, instr] + params@;
    assert(params@.subrange(0, params@.len() as int) =~= params@);
    assert(out@.subrange(2, out@.len() as int) =~= body);
    let chk: u8 = checksum_range(out.as_slice(), 2, out.len());
    out.push(chk);
    assert(out@ =~= spec_frame(id, instr, params@));
    out
}


/// Bytes `[lo, hi]` of a 16 bit value, as the protocol sends it.
fn u16_to_le(value: u16) -> (out: (u8, u8))
    ensures
        out.0 == lo_byte(value),
        out.1 == hi_byte(value),
        le_u16(out.0, out.1) == value,
{
    let lo: u8 = (value & 0xFF) as u8;
    let hi: u8 = (value >> 8) as u8;
    assert(value & 0xFF == value % 256) by (bit_vector);
    assert(value >> 8 == value / 256) by (bit_vector);
    (lo, hi)
}

/// Write a 16 bit register: `WRITE reg lo hi`.
pub fn write_u16(id: u8, reg: u8, value: u16) -> (out: Vec<u8>)
    ensures
        out@ == spec_frame(id, INSTR_WRITE, seq![reg, lo_byte(value), hi_byte(value)]),
        le_u16(out@[6], out@[7]) == value,
{
    let (lo, hi) = u16_to_le(value);
    let params: [u8; 3] = [reg, lo, hi];
    let out: Vec<u8> = frame(id, INSTR_WRITE, &params);
    assert(params@ =~= seq![reg, lo, hi]);
    out
}

/// Write an 8 bit register: `WRITE reg value`.
pub fn write_u8(id: u8, reg: u8, value: u8) -> (out: Vec<u8>)
    ensures
        out@ == spec_frame(id, INSTR_WRITE, seq![reg, value]),
{
    let params: [u8; 2] = [reg, value];
    assert(params@ =~= seq![reg, value]);
    frame(id, INSTR_WRITE, &params)
}

/// Parameters of a sync write: the register, the data length 2, then `id lo hi` per servo.
pub open spec fn sync_params(reg: u8, values: Seq<(u8, u16)>) -> Seq<u8>
    decreases values.len(),
{
    if values.len() == 0 {
        seq![reg, 2u8]
    } else {
        let (id, v) = values.last();
        sync_params(reg, values.drop_last()) + seq![id, lo_byte(v), hi_byte(v)]
    }
}

proof fn lemma_sync_params_len(reg: u8, values: Seq<(u8, u16)>)
    ensures
        sync_params(reg, values).len() == 2 + 3 * values.len(),
    decreases values.len(),
{
    if values.len() > 0 {
        lemma_sync_params_len(reg, values.drop_last());
    }
}

proof fn lemma_sync_params_entries(reg: u8, values: Seq<(u8, u16)>)
    ensures
        sync_params(reg, values).len() == 2 + 3 * values.len(),
        sync_params(reg, values)[0] == reg,
        sync_params(reg, values)[1] == 2,
        forall|k: int|
            #![trigger values[k]]
            0 <= k < values.len() ==> {
                &&& sync_params(reg, values)[2 + 3 * k] == values[k].0
                &&& sync_params(reg, values)[3 + 3 * k] as int == values[k].1 as int % 256
                &&& sync_params(reg, values)[4 + 3 * k] as int == values[k].1 as int / 256
            },
    decreases values.len(),
{
    lemma_sync_params_len(reg, values);
    if values.len() > 0 {
        let init = values.drop_last();
        lemma_sync_params_entries(reg, init);
        let (id, v) = values.last();
        let p = sync_params(reg, values);
        assert(p == sync_params(reg, init) + seq![id, lo_byte(v), hi_byte(v)]);
        assert forall|k: int| #![trigger values[k]] 0 <= k < values.len() implies {
            &&& p[2 + 3 * k] == values[k].0
            &&& p[3 + 3 * k] as int == values[k].1 as int % 256
            &&& p[4 + 3 * k] as int == values[k].1 as int / 256
        } by {
            if k < init.len() {
                assert(values[k] == init[k]);
            } else {
                assert(k == init.len());
            }
        }
    }
}

/// A sync write frame carries, for each entry `k` of `values` in order, the three
/// parameter bytes `id`, low byte, high byte of that entry at frame offsets
/// `7 + 3k .. 7 + 3k + 3`, after the header, broadcast id, length, instruction,
/// register and data length 2.
pub proof fn lemma_sync_write_layout(reg: u8, values: Seq<(u8, u16)>)
    ensures
        ({
            let f = spec_frame(BROADCAST_ID, INSTR_SYNC_WRITE, sync_params(reg, values));
            &&& f.len() == 8 + 3 * values.len()
            &&& f[2] == BROADCAST_ID
            &&& f[4] == INSTR_SYNC_WRITE
            &&& f[5] == reg
            &&& f[6] == 2
            &&& forall|k: int|
                #![trigger values[k]]
                0 <= k < values.len() ==> {
                    &&& f[7 + 3 * k] == values[k].0
                    &&& f[8 + 3 * k] as int == values[k].1 as int % 256
                    &&& f[9 + 3 * k] as int == values[k].1 as int / 256
                }
        }),
{
    lemma_sync_params_entries(reg, values);
    let p = sync_params(reg, values);
    let body = seq![BROADCAST_ID, ((p.len() + 2) % 256) as u8, INSTR_SYNC_WRITE] + p;
    let f = spec_frame(BROADCAST_ID, INSTR_SYNC_WRITE, p);
    assert(f == seq![HEADER_BYTE, HEADER_BYTE] + body + seq![spec_checksum(body)]);
    assert forall|j: int| 0 <= j < p.len() implies f[5 + j] == p[j] by {
        assert(body[3 + j] == p[j]);
    }
    assert forall|k: int| #![trigger values[k]] 0 <= k < values.len() implies {
        &&& f[7 + 3 * k] == values[k].0
        &&& f[8 + 3 * k] as int == values[k].1 as int % 256
        &&& f[9 + 3 * k] as int == values[k].1 as int / 256
    } by {
        assert(f[5 + (2 + 3 * k)] == p[2 + 3 * k]);
        assert(f[5 + (3 + 3 * k)] == p[3 + 3 * k]);
        assert(f[5 + (4 + 3 * k)] == p[4 + 3 * k]);
    }
    assert(f[5int] == p[0]);
    assert(f[6int] == p[1]);
}

/// One frame setting a 16 bit register on many servos.
pub fn sync_write_u16(reg: u8, values: &[(u8, u16)]) -> (out: Vec<u8>)
    requires
        3 * values@.len() + 8 <= usize::MAX,
    ensures
        out@ == spec_frame(BROADCAST_ID, INSTR_SYNC_WRITE, sync_params(reg, values@)),
        out@.len() == 2 + 3 + 2 + 3 * values@.len() + 1,
{
    let mut params: Vec<u8> = Vec::new();
    params.push(reg);
    params.push(2);
    let mut i: usize = 0;
    while i < values.len()
        invariant
            i <= values@.len(),
            3 * values@.len() + 8 <= usize::MAX,
            params@ == sync_params(reg, values@.subrange(0, i as int)),
            params@.len() == 2 + 3 * i,
        decreases values@.len() - i,
    {
        let (id, v) = values[i];
        let (lo, hi) = u16_to_le(v);
        params.push(id);
        params.push(lo);
        params.push(hi);
        assert(values@.subrange(0, i + 1).drop_last() =~= values@.subrange(0, i as int));
        i = i + 1;
    }
    assert(values@.subrange(0, values@.len() as int) =~= values@);
    proof {
        lemma_sync_params_len(reg, values@);
    }
    frame(BROADCAST_ID, INSTR_SYNC_WRITE, params.as_slice())
}

/// Ask a servo for the 16 bit value of `reg`: `READ reg 2`.
pub fn read_u16_request(id: u8, reg: u8) -> (out: Vec<u8>)
    ensures
        out@ == spec_frame(id, INSTR_READ, seq![reg, 2u8]),
{
    let params: [u8; 2] = [reg, 2];
    assert(params@ =~= seq![reg, 2u8]);
    frame(id, INSTR_READ, &params)
}

/// Position of the first `FF FF` at or after `from`.
pub open spec fn find_header(buf: Seq<u8>, from: int) -> Option<int>
    decreases buf.len() - from,
{
    if from < 0 || from + 2 > buf.len() {
        None
    } else if buf[from] == HEADER_BYTE && buf[from + 1] == HEADER_BYTE {
        Some(from)
    } else {
        find_header(buf, from + 1)
    }
}

/// What a status packet `FF FF ID LEN ERR D0 D1 CHK` found in `buf` says about `expect_id`.
pub open spec fn spec_parse_u16_response(buf: Seq<u8>, expect_id: u8) -> Option<u16> {
    match find_header(buf, 0) {
        None => None,
        Some(start) => {
            let p = buf.subrange(start, buf.len() as int);
            if p.len() < 8 || p[2] != expect_id || p[3] < 4 {
                None
            } else {
                let body_len = p[3] + 2;
                if p.len() < 2 + body_len || spec_checksum(p.subrange(2, 2 + body_len - 1)) != p[2
                    + body_len - 1] {
                    None
                } else {
                    Some(le_u16(p[5], p[6]))
                }
            }
        }
    }
}

/// Parse a status packet `FF FF ID LEN ERR D0 D1 CHK`; returns the value.
pub fn parse_u16_response(buf: &[u8], expect_id: u8) -> (res: Option<u16>)
    ensures
        res == spec_parse_u16_response(buf@, expect_id),
{
    let n: usize = buf.len();
    let mut start: usize = 0;
    loop
        invariant
            n == buf@.len(),
            start <= n,
            find_header(buf@, 0) == find_header(buf@, start as int),
        ensures
            start + 2 <= n,
            find_header(buf@, 0) == Some(start as int),
        decreases n - start,
    {
        if n - start < 2 {
            return None;
        }
        if buf[start] == HEADER_BYTE && buf[start + 1] == HEADER_BYTE {
            break;
        }
        start = start + 1;
    }
    let ghost p = buf@.subrange(start as int, n as int);
    let plen: usize = n - start;
    if plen < 8 || buf[start + 2] != expect_id || buf[start + 3] < 4 {
        return None;
    }
    let body_len: usize = buf[start + 3] as usize + 2;
    if plen < 2 + body_len {
        return None;
    }
    let chk: u8 = checksum_range(buf, start + 2, start + 2 + body_len - 1);
    assert(buf@.subrange(start + 2, start + 2 + body_len - 1) =~= p.subrange(2, 2 + body_len - 1));
    if chk != buf[start + 2 + body_len - 1] {
        return None;
    }
    let lo: u8 = buf[start + 5];
    let hi: u8 = buf[start + 6];
    Some((lo as u16) + (hi as u16) * 256)
}

/// Every frame carries a valid checksum over everything between the header and itself.
pub proof fn lemma_frame_checksum_valid(id: u8, instr: u8, params: Seq<u8>)
    ensures
        ({
            let f = spec_frame(id, instr, params);
            spec_checksum(f.subrange(2, f.len() - 1)) == f[f.len() - 1]
        }),
{
    let body = seq![id, ((params.len() + 2) % 256) as u8, instr] + params;
    let f = spec_frame(id, instr, params);
    assert(f.subrange(2, f.len() - 1) =~= body);
}

/// Splitting a 16 bit value into bytes and joining them again gives the value back.
pub proof fn lemma_le_u16_roundtrip(v: u16)
    ensures
        le_u16(lo_byte(v), hi_byte(v)) == v,
{
}

/// A status packet from servo `id` carrying `v` (a frame whose instruction byte is the
/// error byte and whose parameters are `[lo, hi]`) parses back to `v` when `id` is
/// expected, and to nothing when another id is expected.
pub proof fn lemma_status_packet_roundtrip(id: u8, err: u8, v: u16, other: u8)
    requires
        other != id,
    ensures
        spec_parse_u16_response(spec_frame(id, err, seq![lo_byte(v), hi_byte(v)]), id) == Some(v),
        spec_parse_u16_response(spec_frame(id, err, seq![lo_byte(v), hi_byte(v)]), other) is None,
{
    let params = seq![lo_byte(v), hi_byte(v)];
    let f = spec_frame(id, err, params);
    assert(f.len() == 8);
    assert(find_header(f, 0) == Some(0int));
    assert(f.subrange(0, f.len() as int) =~= f);
    lemma_frame_checksum_valid(id, err, params);
    assert(f.subrange(2, 7) =~= f.subrange(2, f.len() - 1));
}

} // verus!
