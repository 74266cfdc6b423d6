//! RIFF/WAVE reader: the chunk walk that finds the sample format and the sample
//! bytes, and the integer value of each stored sample.

use vstd::prelude::*;

use crate::media::{bytes_at, match_bytes, riff_magic, sniff_audio_format, spec_audio_format, starts_with_bytes};
use crate::text::{chars_eq, decimal, spec_decimal, to_chars};
use crate::types::JepaError;

verus! {

/// Little-endian 16-bit value at `b[i..i + 2]`.
pub open spec fn le16(b: Seq<u8>, i: int) -> int {
    b[i] + 256 * b[i + 1]
}

/// Little-endian 32-bit value at `b[i..i + 4]`.
pub open spec fn le32(b: Seq<u8>, i: int) -> int {
    b[i] + 256 * b[i + 1] + 65536 * b[i + 2] + 16777216 * b[i + 3]
}

pub open spec fn wave_id() -> Seq<u8> {
    seq![0x57u8, 0x41, 0x56, 0x45]
}

pub open spec fn fmt_id() -> Seq<u8> {
    seq![0x66u8, 0x6D, 0x74, 0x20]
}

pub open spec fn data_id() -> Seq<u8> {
    seq![0x64u8, 0x61, 0x74, 0x61]
}

/// How the samples of a WAV file are stored.
#[derive(Debug, Clone, Copy, PartialEq, Eq, Structural)]
pub enum WavEncoding {
    /// Unsigned 8-bit PCM, centred on 128.
    Pcm8,
    /// Signed 16-bit little-endian PCM.
    Pcm16,
    /// Signed 24-bit little-endian PCM.
    Pcm24,
    /// Signed 32-bit little-endian PCM.
    Pcm32,
    /// IEEE 754 single precision, little-endian.
    Float32,
}

/// The encoding named by a `fmt ` chunk's format tag and bit depth, if supported.
pub open spec fn encoding_of(format: int, bits: int) -> Option<WavEncoding> {
    if format == 1 && bits == 8 {
        Some(WavEncoding::Pcm8)
    } else if format == 1 && bits == 16 {
        Some(WavEncoding::Pcm16)
    } else if format == 1 && bits == 24 {
        Some(WavEncoding::Pcm24)
    } else if format == 1 && bits == 32 {
        Some(WavEncoding::Pcm32)
    } else if format == 3 && bits == 32 {
        Some(WavEncoding::Float32)
    } else {
        None
    }
}

impl WavEncoding {
    pub open spec fn width(self) -> int {
        match self {
            WavEncoding::Pcm8 => 1,
            WavEncoding::Pcm16 => 2,
            WavEncoding::Pcm24 => 3,
            WavEncoding::Pcm32 => 4,
            WavEncoding::Float32 => 4,
        }
    }

    /// Bytes one stored sample takes.
    pub fn bytes_per_sample(self) -> (n: usize)
        ensures
            n == self.width(),
    {
        match self {
            WavEncoding::Pcm8 => 1,
            WavEncoding::Pcm16 => 2,
            WavEncoding::Pcm24 => 3,
            WavEncoding::Pcm32 => 4,
            WavEncoding::Float32 => 4,
        }
    }
}

/// What the chunk walk has collected so far: the last `fmt ` chunk's fields (zero
/// before one is seen) and the bounds of the last `data` chunk.
pub struct ChunkState {
    pub format: int,
    pub channels: int,
    pub rate: int,
    pub bits: int,
    pub data: Option<(int, int)>,
}

pub open spec fn initial_chunk_state() -> ChunkState {
    ChunkState { format: 0, channels: 0, rate: 0, bits: 0, data: None }
}

/// Where the body of the chunk whose header starts at `pos` ends: its declared size,
/// cut at the end of the buffer.
pub open spec fn body_end(b: Seq<u8>, pos: int) -> int {
    if pos + 8 + le32(b, pos + 4) < b.len() {
        pos + 8 + le32(b, pos + 4)
    } else {
        b.len() as int
    }
}

/// Where the next chunk header starts (bodies are padded to an even size).
pub open spec fn next_chunk(b: Seq<u8>, pos: int) -> int {
    pos + 8 + le32(b, pos + 4) + le32(b, pos + 4) % 2
}

/// Read the chunk whose header starts at `pos`; none when a `fmt ` chunk is shorter
/// than 16 bytes.
pub open spec fn read_chunk(b: Seq<u8>, pos: int, st: ChunkState) -> Option<ChunkState> {
    let start = pos + 8;
    let end = body_end(b, pos);
    if bytes_at(b, pos, fmt_id()) {
        if end - start < 16 {
            None
        } else {
            let tag = le16(b, start);
            Some(
                ChunkState {
                    format: if tag == 0xFFFE && end - start >= 26 {
                        le16(b, start + 24)
                    } else {
                        tag
                    },
                    channels: le16(b, start + 2),
                    rate: le32(b, start + 4),
                    bits: le16(b, start + 14),
                    data: st.data,
                },
            )
        }
    } else if bytes_at(b, pos, data_id()) {
        Some(ChunkState { data: Some((start, end)), ..st })
    } else {
        Some(st)
    }
}

/// Walk the chunks from `pos` to the end of the buffer.
pub open spec fn walk_chunks(b: Seq<u8>, pos: int, st: ChunkState) -> Option<ChunkState>
    decreases b.len() - pos,
{
    if pos < 0 || pos + 8 > b.len() {
        Some(st)
    } else {
        match read_chunk(b, pos, st) {
            None => None,
            Some(next_st) => if next_chunk(b, pos) <= b.len() {
                walk_chunks(b, next_chunk(b, pos), next_st)
            } else {
                Some(next_st)
            },
        }
    }
}

/// Where the samples of a WAV file are and how they are stored.
#[derive(Debug, Clone, Copy)]
pub struct WavLayout {
    pub encoding: WavEncoding,
    pub channels: u16,
    pub sample_rate: u32,
    /// Offset of the first sample byte.
    pub data_start: usize,
    /// Offset one past the last sample byte.
    pub data_end: usize,
}

impl WavLayout {
    /// Whole frames (one sample per channel) in the data chunk.
    pub open spec fn frames(self) -> int {
        (self.data_end - self.data_start) / self.encoding.width() / (self.channels as int)
    }

    /// Layout facts every parsed file has.
    pub open spec fn well_formed(self, len: nat) -> bool {
        &&& self.data_start <= self.data_end <= len
        &&& self.channels > 0
        &&& self.sample_rate > 0
        &&& self.frames() > 0
    }

    /// Number of mono samples the file decodes to.
    pub fn frame_count(&self) -> (n: usize)
        requires
            self.channels > 0,
            self.data_start <= self.data_end,
        ensures
            n == self.frames(),
    {
        (self.data_end - self.data_start) / self.encoding.bytes_per_sample() / (self.channels as usize)
    }
}

/// The layout of a WAV file, or none when the file is refused.
pub open spec fn spec_wav_layout(b: Seq<u8>) -> Option<WavLayout> {
    if !(b.len() >= 12 && starts_with_bytes(b, riff_magic()) && bytes_at(b, 8, wave_id())) {
        None
    } else {
        match walk_chunks(b, 12, initial_chunk_state()) {
            None => None,
            Some(st) => match st.data {
                None => None,
                Some(span) => if st.channels == 0 || st.rate == 0 {
                    None
                } else {
                    match encoding_of(st.format, st.bits) {
                        None => None,
                        Some(enc) => if (span.1 - span.0) / enc.width() / st.channels == 0 {
                            None
                        } else {
                            Some(
                                WavLayout {
                                    encoding: enc,
                                    channels: st.channels as u16,
                                    sample_rate: st.rate as u32,
                                    data_start: span.0 as usize,
                                    data_end: span.1 as usize,
                                },
                            )
                        },
                    }
                },
            },
        }
    }
}

/// Why a file is refused (see [`spec_wav_layout`]).
pub open spec fn spec_wav_failure(b: Seq<u8>) -> Seq<char> {
    if !(b.len() >= 12 && starts_with_bytes(b, riff_magic()) && bytes_at(b, 8, wave_id())) {
        "missing RIFF/WAVE header"@
    } else {
        match walk_chunks(b, 12, initial_chunk_state()) {
            None => "fmt chunk too short"@,
            Some(st) => match st.data {
                None => "no data chunk"@,
                Some(span) => if st.channels == 0 || st.rate == 0 {
                    "no fmt chunk"@
                } else {
                    match encoding_of(st.format, st.bits) {
                        None => "unsupported format "@ + spec_decimal(st.format as nat) + " / "@ + spec_decimal(
                            st.bits as nat,
                        ) + " bits"@,
                        Some(_) => "no samples"@,
                    }
                },
            },
        }
    }
}

fn read_le16(b: &[u8], i: usize) -> (v: u16)
    requires
        i + 2 <= b@.len(),
    ensures
        v == le16(b@, i as int),
{
    (b[i] as u16) + 256 * (b[i + 1] as u16)
}

fn read_le32(b: &[u8], i: usize) -> (v: u32)
    requires
        i + 4 <= b@.len(),
    ensures
        v == le32(b@, i as int),
{
    (b[i] as u32) + 256 * (b[i + 1] as u32) + 65536 * (b[i + 2] as u32) + 16777216 * (b[i + 3] as u32)
}

fn invalid_wav(what: &str) -> (e: JepaError)
    ensures
        e matches JepaError::InvalidPayload(m) && m@ == "Invalid WAV: "@ + what@,
{
    JepaError::InvalidPayload(String::from_str("Invalid WAV: ").concat(what))
}

/// Find the sample format and the sample bytes of a RIFF/WAVE file (PCM integer,
/// IEEE float, WAVE_FORMAT_EXTENSIBLE). Refused: a missing RIFF/WAVE header, a
/// `fmt ` chunk under 16 bytes, no `data` chunk, no `fmt ` chunk (zero channels or
/// rate), an unsupported format or bit depth, and a file with no whole frame.
#[verifier::rlimit(40)]
pub fn wav_layout(bytes: &[u8]) -> (r: Result<WavLayout, JepaError>)
    ensures
        r is Ok <==> spec_wav_layout(bytes@) is Some,
        r matches Ok(l) ==> spec_wav_layout(bytes@) == Some(l) && l.well_formed(bytes@.len()),
        r matches Err(e) ==> e is InvalidPayload,
        r matches Err(JepaError::InvalidPayload(m)) ==> m@ == "Invalid WAV: "@ + spec_wav_failure(bytes@),
{
    let riff: [u8; 4] = [0x52, 0x49, 0x46, 0x46];
    let wave: [u8; 4] = [0x57, 0x41, 0x56, 0x45];
    let fmt: [u8; 4] = [0x66, 0x6D, 0x74, 0x20];
    let data_tag: [u8; 4] = [0x64, 0x61, 0x74, 0x61];
    proof {
        assert(riff@ =~= riff_magic());
        assert(wave@ =~= wave_id());
        assert(fmt@ =~= fmt_id());
        assert(data_tag@ =~= data_id());
        if riff@.len() <= bytes@.len() {
            assert(bytes@.subrange(0, 4) =~= bytes@.take(4));
        }
    }
    if bytes.len() < 12 || !match_bytes(bytes, 0, &riff) || !match_bytes(bytes, 8, &wave) {
        return Err(invalid_wav("missing RIFF/WAVE header"));
    }
    let ghost b = bytes@;
    let len: usize = bytes.len();
    let mut format: u16 = 0;
    let mut channels: u16 = 0;
    let mut rate: u32 = 0;
    let mut bits: u16 = 0;
    let mut data: Option<(usize, usize)> = None;
    let mut pos: usize = 12;
    let mut done: bool = false;
    while !done && len - pos >= 8
        invariant
            b == bytes@,
            len == b.len(),
            12 <= pos <= len,
            starts_with_bytes(b, riff_magic()) && bytes_at(b, 8, wave_id()),
            fmt@ == fmt_id(),
            data_tag@ == data_id(),
            format <= 0xFFFF,
            data matches Some(span) ==> span.0 <= span.1 <= len,
            walk_chunks(b, 12, initial_chunk_state()) == if done {
                Some(
                    ChunkState {
                        format: format as int,
                        channels: channels as int,
                        rate: rate as int,
                        bits: bits as int,
                        data: match data {
                            Some(span) => Some((span.0 as int, span.1 as int)),
                            None => None,
                        },
                    },
                )
            } else {
                walk_chunks(
                    b,
                    pos as int,
                    ChunkState {
                        format: format as int,
                        channels: channels as int,
                        rate: rate as int,
                        bits: bits as int,
                        data: match data {
                            Some(span) => Some((span.0 as int, span.1 as int)),
                            None => None,
                        },
                    },
                )
            },
        decreases (len - pos) * 2 + if done { 0int } else { 1int },
    {
        let ghost st = ChunkState {
            format: format as int,
            channels: channels as int,
            rate: rate as int,
            bits: bits as int,
            data: match data {
                Some(span) => Some((span.0 as int, span.1 as int)),
                None => None,
            },
        };
        let size: u32 = read_le32(bytes, pos + 4);
        let start: usize = pos + 8;
        let remaining: usize = len - start;
        let size_n: usize = size as usize;
        let end: usize = if size_n < remaining {
            start + size_n
        } else {
            len
        };
        assert(end == body_end(b, pos as int));
        if match_bytes(bytes, pos, &fmt) {
            if end - start < 16 {
                proof {
                    assert(read_chunk(b, pos as int, st) is None);
                    assert(walk_chunks(b, pos as int, st) is None);
                }
                return Err(invalid_wav("fmt chunk too short"));
            }
            let tag: u16 = read_le16(bytes, start);
            format = if tag == 0xFFFE && end - start >= 26 {
                read_le16(bytes, start + 24)
            } else {
                tag
            };
            channels = read_le16(bytes, start + 2);
            rate = read_le32(bytes, start + 4);
            bits = read_le16(bytes, start + 14);
        } else if match_bytes(bytes, pos, &data_tag) {
            data = Some((start, end));
        }
        let ghost st2 = ChunkState {
            format: format as int,
            channels: channels as int,
            rate: rate as int,
            bits: bits as int,
            data: match data {
                Some(span) => Some((span.0 as int, span.1 as int)),
                None => None,
            },
        };
        let ghost p0 = pos as int;
        assert(read_chunk(b, p0, st) == Some(st2));
        if size_n < remaining && remaining - size_n >= size_n % 2 {
            pos = start + size_n + size_n % 2;
            assert(walk_chunks(b, p0, st) == walk_chunks(b, pos as int, st2));
        } else {
            done = true;
            assert(walk_chunks(b, next_chunk(b, p0), st2) == Some(st2));
            assert(walk_chunks(b, p0, st) == Some(st2));
        }
    }
    proof {
        if !done {
            assert(pos + 8 > b.len());
        }
    }
    let span: (usize, usize) = match data {
        Some(span) => span,
        None => {
            return Err(invalid_wav("no data chunk"));
        },
    };
    if channels == 0 || rate == 0 {
        return Err(invalid_wav("no fmt chunk"));
    }
    let encoding: WavEncoding = if format == 1 && bits == 8 {
        WavEncoding::Pcm8
    } else if format == 1 && bits == 16 {
        WavEncoding::Pcm16
    } else if format == 1 && bits == 24 {
        WavEncoding::Pcm24
    } else if format == 1 && bits == 32 {
        WavEncoding::Pcm32
    } else if format == 3 && bits == 32 {
        WavEncoding::Float32
    } else {
        let msg: String = String::from_str("unsupported format ").concat(decimal(format as u64).as_str()).concat(
            " / ",
        ).concat(decimal(bits as u64).as_str()).concat(" bits");
        return Err(invalid_wav(msg.as_str()));
    };
    let layout = WavLayout {
        encoding,
        channels,
        sample_rate: rate,
        data_start: span.0,
        data_end: span.1,
    };
    if layout.frame_count() == 0 {
        return Err(invalid_wav("no samples"));
    }
    Ok(layout)
}

/// The stored word of sample `channel` of frame `frame`: the little-endian value
/// of its bytes.
pub open spec fn spec_sample_word(b: Seq<u8>, l: WavLayout, frame: int, channel: int) -> int {
    let at = l.data_start + (frame * l.channels + channel) * l.encoding.width();
    match l.encoding {
        WavEncoding::Pcm8 => b[at] as int,
        WavEncoding::Pcm16 => le16(b, at),
        WavEncoding::Pcm24 => b[at] + 256 * b[at + 1] + 65536 * b[at + 2],
        _ => le32(b, at),
    }
}

/// The stored word of sample `channel` of frame `frame` (for 32-bit float data, the
/// bit pattern of the float).
pub fn sample_word(bytes: &[u8], layout: &WavLayout, frame: usize, channel: usize) -> (w: u32)
    requires
        layout.well_formed(bytes@.len()),
        frame < layout.frames(),
        channel < layout.channels,
    ensures
        w == spec_sample_word(bytes@, *layout, frame as int, channel as int),
{
    let ghost c = layout.channels as int;
    let ghost width = layout.encoding.width();
    let ghost span = layout.data_end - layout.data_start;
    let width_n: usize = layout.encoding.bytes_per_sample();
    let ch: usize = layout.channels as usize;
    proof {
        let q = span / width;
        assert(frame < q / c);
        assert((frame + 1) * c <= q) by (nonlinear_arith)
            requires
                frame < q / c,
                c > 0,
                q >= 0,
        ;
        assert(q * width <= span) by (nonlinear_arith)
            requires
                q == span / width,
                width > 0,
                span >= 0,
        ;
        assert(frame * c + channel + 1 <= (frame + 1) * c) by (nonlinear_arith)
            requires
                channel < c,
        ;
        assert((frame * c + channel + 1) * width <= q * width) by (nonlinear_arith)
            requires
                frame * c + channel + 1 <= (frame + 1) * c,
                (frame + 1) * c <= q,
                width > 0,
        ;
        assert((frame * c + channel) * width + width == (frame * c + channel + 1) * width) by (nonlinear_arith);
        assert(frame * c <= (frame + 1) * c) by (nonlinear_arith)
            requires
                c > 0,
                frame >= 0,
        ;
    }
    let at: usize = layout.data_start + (frame * ch + channel) * width_n;
    match layout.encoding {
        WavEncoding::Pcm8 => bytes[at] as u32,
        WavEncoding::Pcm16 => read_le16(bytes, at) as u32,
        WavEncoding::Pcm24 => (bytes[at] as u32) + 256 * (bytes[at + 1] as u32) + 65536 * (bytes[at + 2] as u32),
        _ => read_le32(bytes, at),
    }
}

/// The signed value of a stored integer sample word.
pub open spec fn spec_pcm_value(e: WavEncoding, w: int) -> int {
    match e {
        WavEncoding::Pcm8 => w - 128,
        WavEncoding::Pcm16 => if w < 0x8000 { w } else { w - 0x1_0000 },
        WavEncoding::Pcm24 => if w < 0x80_0000 { w } else { w - 0x100_0000 },
        _ => if w < 0x8000_0000 { w } else { w - 0x1_0000_0000 },
    }
}

/// The signed value of an integer sample (8-bit samples are centred on 128, wider
/// ones are two's complement).
pub fn pcm_value(encoding: WavEncoding, word: u32) -> (v: i64)
    requires
        encoding != WavEncoding::Float32,
    ensures
        v == spec_pcm_value(encoding, word as int),
{
    let w: i64 = word as i64;
    match encoding {
        WavEncoding::Pcm8 => w - 128,
        WavEncoding::Pcm16 => if w < 0x8000 { w } else { w - 0x1_0000 },
        WavEncoding::Pcm24 => if w < 0x80_0000 { w } else { w - 0x100_0000 },
        _ => if w < 0x8000_0000 { w } else { w - 0x1_0000_0000 },
    }
}

/// Full-scale magnitude an integer sample is divided by to land in `[-1, 1)`.
pub fn full_scale(encoding: WavEncoding) -> (s: u64)
    ensures
        s == match encoding {
            WavEncoding::Pcm8 => 128int,
            WavEncoding::Pcm16 => 32768int,
            WavEncoding::Pcm24 => 8_388_608int,
            _ => 2_147_483_648int,
        },
{
    match encoding {
        WavEncoding::Pcm8 => 128,
        WavEncoding::Pcm16 => 32768,
        WavEncoding::Pcm24 => 8_388_608,
        _ => 2_147_483_648,
    }
}

/// Integer samples decode as signed values: a 16-, 24- or 32-bit word is read in
/// two's complement (a word at or above half the range stands for itself minus the
/// full range), so every decoded value lies in `[-half, half)`; an 8-bit word is
/// offset binary, centred on 128.
pub proof fn lemma_pcm_value_is_signed(e: WavEncoding, w: int)
    requires
        e != WavEncoding::Float32,
        0 <= w,
        w < match e {
            WavEncoding::Pcm8 => 0x100int,
            WavEncoding::Pcm16 => 0x1_0000int,
            WavEncoding::Pcm24 => 0x100_0000int,
            _ => 0x1_0000_0000int,
        },
    ensures
        ({
            let half: int = match e {
                WavEncoding::Pcm8 => 0x80int,
                WavEncoding::Pcm16 => 0x8000int,
                WavEncoding::Pcm24 => 0x80_0000int,
                _ => 0x8000_0000int,
            };
            let v = spec_pcm_value(e, w);
            &&& -half <= v < half
            &&& e == WavEncoding::Pcm8 ==> v == w - half
            &&& e != WavEncoding::Pcm8 ==> (v == w || v == w - 2 * half)
        }),
{
}

/// How an audio payload is decoded: a WAV file natively, from its layout; any other
/// recognised container by an external decoder.
#[derive(Debug, Clone, Copy)]
pub enum AudioRoute {
    Wav(WavLayout),
    /// The container's short name (`mp3`, `flac`, `ogg`).
    Container(&'static str),
}

/// Route an audio payload to its decoder. Refused: anything that is not WAV, MP3,
/// FLAC or OGG, and a WAV file that [`wav_layout`] refuses.
pub fn audio_route(bytes: &[u8]) -> (r: Result<AudioRoute, JepaError>)
    ensures
        spec_audio_format(bytes@) is None ==> (r matches Err(JepaError::InvalidPayload(m))
            && m@ == "Not a supported audio format (WAV, MP3, FLAC, OGG)"@),
        spec_audio_format(bytes@) == Some("wav"@) ==> match r {
            Ok(AudioRoute::Wav(l)) => spec_wav_layout(bytes@) == Some(l),
            Ok(AudioRoute::Container(_)) => false,
            Err(JepaError::InvalidPayload(m)) => spec_wav_layout(bytes@) is None && m@ == "Invalid WAV: "@
                + spec_wav_failure(bytes@),
            Err(_) => false,
        },
        (spec_audio_format(bytes@) matches Some(f) && f != "wav"@) ==> (r matches Ok(AudioRoute::Container(c))
            && Some(c@) == spec_audio_format(bytes@)),
{
    match sniff_audio_format(bytes) {
        None => Err(JepaError::InvalidPayload(String::from_str("Not a supported audio format (WAV, MP3, FLAC, OGG)"))),
        Some(f) => {
            let fc: Vec<char> = to_chars(f);
            if chars_eq(&fc, "wav") {
                match wav_layout(bytes) {
                    Ok(l) => Ok(AudioRoute::Wav(l)),
                    Err(e) => Err(e),
                }
            } else {
                Ok(AudioRoute::Container(f))
            }
        },
    }
}

} // verus!
