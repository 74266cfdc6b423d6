//! Request payloads of the HTTP API and the small rules that read them.

use vstd::prelude::*;

use crate::clip::{decode_clip_bytes, DecodedClip};
use crate::config::{MAX_IMAGE_PAYLOAD_SIZE, MAX_VIDEO_PAYLOAD_SIZE};
use crate::gate::Rejection;
use crate::media::{sniff_audio_format, sniff_failure, sniff_media_format, spec_audio_format, spec_media_format};
use crate::text::{chars_eq, to_chars, trim, trimmed};

verus! {

#[derive(Debug, Clone, Default)]
pub struct MicStartPayload {
    pub device: Option<usize>,
}

#[derive(Debug, Clone)]
pub struct ListSoundsQuery {
    pub model: Option<String>,
    pub all: bool,
}

#[derive(Debug, Clone)]
pub struct LoadModelPayload {
    pub model_name: String,
}

#[derive(Debug, Clone, Default)]
pub struct UnloadModelPayload {
    /// Unload this model wherever it is loaded (vision or audio slot). Without it
    /// the vision model is unloaded.
    pub model_name: Option<String>,
}

#[derive(Debug, Clone)]
pub struct DeleteModelQuery {
    pub name: Option<String>,
}

#[derive(Debug, Clone)]
pub struct DeleteModelPayload {
    pub name: Option<String>,
    pub model: Option<String>,
}

#[derive(Debug, Clone)]
pub struct PullRequest {
    pub repo_id: String,
}

/// Query for camera controls.
#[derive(Debug, Clone)]
pub struct CameraControlQuery {
    pub device: Option<usize>,
    pub fps: Option<u64>,
}

/// Source of the frames currently produced.
#[derive(Debug, Clone, Copy, PartialEq, Eq, Structural)]
pub enum CameraSource {
    Off,
    Opening,
    Device,
    /// The device could not be opened; frames are a generated test pattern.
    Synthetic,
}

/// Snapshot of the capture state for `/api/status`.
#[derive(Debug, Clone)]
pub struct CameraHealth {
    pub active: bool,
    pub source: CameraSource,
    pub frames: u64,
    pub error: Option<String>,
}

#[derive(Debug, Clone, Copy, PartialEq, Eq, Structural)]
pub enum MicSource {
    Off,
    Opening,
    Device,
}

#[derive(Debug, Clone)]
pub struct MicDeviceInfo {
    pub index: usize,
    pub name: String,
    pub is_default: bool,
}

impl CameraControlQuery {
    /// The device (default 0) and the frame rate (default 10, kept within 1 to 30).
    pub fn resolve(&self) -> (r: (usize, u64))
        ensures
            r.0 == match self.device {
                Some(d) => d,
                None => 0,
            },
            r.1 == match self.fps {
                Some(f) => if f < 1 {
                    1
                } else if f > 30 {
                    30
                } else {
                    f
                },
                None => 10,
            },
    {
        let dev: usize = match self.device {
            Some(d) => d,
            None => 0,
        };
        let fps: u64 = match self.fps {
            Some(f) => if f < 1 {
                1
            } else if f > 30 {
                30
            } else {
                f
            },
            None => 10,
        };
        (dev, fps)
    }
}

/// Milliseconds between frames at `target_fps` (10 frames per second when zero).
pub fn frame_interval_ms(target_fps: u64) -> (ms: u64)
    ensures
        ms == 1000int / (if target_fps == 0 { 10int } else { target_fps as int }),
{
    let fps: u64 = if target_fps == 0 { 10 } else { target_fps };
    1000 / fps
}

/// The model a deletion request names: the `name` query parameter, else the body's
/// `name`, else its `model`; 400 when none is given.
pub fn delete_target(query: &DeleteModelQuery, body: Option<&DeleteModelPayload>) -> (r: Result<String, Rejection>)
    ensures
        r matches Ok(n) ==> match query.name {
            Some(q) => n@ == q@,
            None => body matches Some(b) && match b.name {
                Some(x) => n@ == x@,
                None => b.model matches Some(m) && n@ == m@,
            },
        },
        r matches Err(rej) ==> rej.status == 400 && query.name is None && match body {
            Some(b) => b.name is None && b.model is None,
            None => true,
        },
        r is Err ==> query.name is None && match body {
            Some(b) => b.name is None && b.model is None,
            None => true,
        },
        (query.name is None && match body {
            Some(b) => b.name is None && b.model is None,
            None => true,
        }) ==> r is Err,
{
    if let Some(q) = &query.name {
        return Ok(q.clone());
    }
    if let Some(b) = body {
        if let Some(n) = &b.name {
            return Ok(n.clone());
        }
        if let Some(m) = &b.model {
            return Ok(m.clone());
        }
    }
    Err(Rejection { status: 400, message: String::from_str("Missing 'name' or 'model' parameter for deletion") })
}

/// `s` without its leading `/` characters.
pub open spec fn trim_leading_slashes(s: Seq<char>) -> Seq<char>
    decreases s.len(),
{
    if s.len() > 0 && s[0] == '/' {
        trim_leading_slashes(s.drop_first())
    } else {
        s
    }
}

/// An escaped slash (`%2F` or `%2f`) starts at `j`.
pub open spec fn escape_at(s: Seq<char>, j: int) -> bool {
    0 <= j && j + 2 < s.len() && s[j] == '%' && s[j + 1] == '2' && (s[j + 2] == 'F' || s[j + 2] == 'f')
}

/// `s` with every `%2F` and `%2f` turned into `/` (left to right, without overlap).
pub open spec fn unescape_slashes(s: Seq<char>) -> Seq<char>
    decreases s.len(),
{
    if escape_at(s, 0) {
        seq!['/'] + unescape_slashes(s.skip(3))
    } else if s.len() > 0 {
        seq![s[0]] + unescape_slashes(s.drop_first())
    } else {
        s
    }
}

/// The model id in a deletion path: trimmed, leading slashes dropped, escaped
/// slashes (`%2F`) restored.
pub open spec fn spec_delete_name(raw: Seq<char>) -> Seq<char> {
    unescape_slashes(trim_leading_slashes(trimmed(raw)))
}

proof fn lemma_trim_leading(s: Seq<char>, i: int)
    requires
        0 <= i <= s.len(),
        forall|j: int| 0 <= j < i ==> #[trigger] s[j] == '/',
        i == s.len() || s[i] != '/',
    ensures
        trim_leading_slashes(s) == s.skip(i),
    decreases i,
{
    if i > 0 {
        assert forall|j: int| 0 <= j < i - 1 implies #[trigger] s.drop_first()[j] == '/' by {
            assert(s.drop_first()[j] == s[j + 1]);
        }
        if i < s.len() {
            assert(s.drop_first()[i - 1] == s[i]);
        }
        lemma_trim_leading(s.drop_first(), i - 1);
        assert(s.drop_first().skip(i - 1) =~= s.skip(i));
    } else {
        assert(s.skip(0) =~= s);
    }
}

/// The model id a deletion path names.
pub fn delete_name(raw: &str) -> (n: String)
    ensures
        n@ == spec_delete_name(raw@),
{
    let t: String = trim(raw);
    let c: Vec<char> = to_chars(t.as_str());
    let mut i: usize = 0;
    while i < c.len() && c[i] == '/'
        invariant
            i <= c@.len(),
            forall|j: int| 0 <= j < i ==> #[trigger] c@[j] == '/',
        decreases c@.len() - i,
    {
        i = i + 1;
    }
    proof {
        lemma_trim_leading(c@, i as int);
    }
    let rest: &str = t.as_str().substring_char(i, c.len());
    proof {
        assert(rest@ =~= c@.skip(i as int));
    }
    unescape(rest)
}

/// `s` with its escaped slashes (`%2F`, `%2f`) restored.
pub fn unescape(s: &str) -> (r: String)
    ensures
        r@ == unescape_slashes(s@),
{
    let c: Vec<char> = to_chars(s);
    let t: &str = s;
    let i: usize = 0;
    assert(c@.skip(0) =~= c@);
    let mut out: String = String::new();
    let mut start: usize = i;
    let mut k: usize = i;
    assert(out@ + unescape_slashes(c@.skip(start as int)) =~= unescape_slashes(c@.skip(i as int)));
    while k < c.len()
        invariant
            c@ == t@,
            i <= start <= k <= c@.len(),
            out@ + unescape_slashes(c@.skip(start as int)) == unescape_slashes(c@.skip(i as int)),
            forall|j: int| start <= j < k ==> !#[trigger] escape_at(c@, j),
        decreases c@.len() - k,
    {
        proof {
            reveal_strlit("/");
        }
        if c.len() - k > 2 && c[k] == '%' && c[k + 1] == '2' && (c[k + 2] == 'F' || c[k + 2] == 'f') {
            let seg: &str = t.substring_char(start, k);
            let ghost rest = c@.skip(start as int);
            proof {
                assert forall|j: int| 0 <= j < k - start implies !#[trigger] escape_at(rest, j) by {
                    assert(!escape_at(c@, start + j));
                    if j + 2 < rest.len() {
                        assert(rest[j] == c@[start + j] && rest[j + 1] == c@[start + j + 1] && rest[j + 2]
                            == c@[start + j + 2]);
                    }
                }
                lemma_unescape_plain(rest, (k - start) as int);
                assert(rest.skip(k - start) =~= c@.skip(k as int));
                assert(rest.subrange(0, k - start) =~= seg@);
                let at = c@.skip(k as int);
                assert(escape_at(at, 0));
                assert(at.skip(3) =~= c@.skip(k + 3));
                assert(unescape_slashes(at) == seq!['/'] + unescape_slashes(c@.skip(k + 3)));
            }
            let ghost before = out@;
            out.append(seg);
            out.append("/");
            proof {
                assert(out@ =~= before + seg@ + seq!['/']);
                assert(out@ + unescape_slashes(c@.skip(k + 3)) =~= before + (seg@ + (seq!['/'] + unescape_slashes(
                    c@.skip(k + 3),
                ))));
            }
            start = k + 3;
            k = k + 3;
        } else {
            proof {
                assert(!escape_at(c@, k as int));
            }
            k = k + 1;
        }
    }
    let tail: &str = t.substring_char(start, c.len());
    proof {
        let rest = c@.skip(start as int);
        assert forall|j: int| 0 <= j < c@.len() - start implies !#[trigger] escape_at(rest, j) by {
            assert(!escape_at(c@, start + j));
            if j + 2 < rest.len() {
                assert(rest[j] == c@[start + j] && rest[j + 1] == c@[start + j + 1] && rest[j + 2] == c@[start + j
                    + 2]);
            }
        }
        lemma_unescape_plain(rest, (c@.len() - start) as int);
        assert(rest.skip(c@.len() - start) =~= Seq::<char>::empty());
        assert(rest.subrange(0, c@.len() - start) =~= tail@);
        assert(unescape_slashes(Seq::<char>::empty()) =~= Seq::<char>::empty());
    }
    let ghost before = out@;
    out.append(tail);
    assert(out@ =~= before + tail@);
    out
}

/// A stretch with no escape in it comes out unchanged.
proof fn lemma_unescape_plain(s: Seq<char>, n: int)
    requires
        0 <= n <= s.len(),
        forall|j: int| 0 <= j < n ==> !#[trigger] escape_at(s, j),
    ensures
        unescape_slashes(s) == s.subrange(0, n) + unescape_slashes(s.skip(n)),
    decreases n,
{
    if n == 0 {
        assert(s.skip(0) =~= s);
        assert(s.subrange(0, 0) + s =~= s);
    } else {
        let t = s.drop_first();
        assert forall|j: int| 0 <= j < n - 1 implies !#[trigger] escape_at(t, j) by {
            assert(!escape_at(s, j + 1));
            if j + 2 < t.len() {
                assert(t[j] == s[j + 1] && t[j + 1] == s[j + 2] && t[j + 2] == s[j + 3]);
            }
        }
        lemma_unescape_plain(t, n - 1);
        assert(t.skip(n - 1) =~= s.skip(n));
        assert(seq![s[0]] + t.subrange(0, n - 1) =~= s.subrange(0, n));
        assert(!escape_at(s, 0));
    }
}

/// The pipeline an uploaded file goes through.
#[derive(Debug, Clone, Copy, PartialEq, Eq)]
pub enum EmbedRoute {
    /// WAV, MP3, FLAC or Ogg audio.
    Audio,
    /// A still image: PNG, JPEG or a still WebP.
    Image,
    /// A clip: GIF, animated WebP, MP4 or WebM.
    Clip,
}

/// A still image is refused above [`MAX_IMAGE_PAYLOAD_SIZE`].
pub open spec fn image_answer(len: int, r: Result<EmbedRoute, Rejection>) -> bool {
    if len > MAX_IMAGE_PAYLOAD_SIZE {
        r matches Err(rej) && rej.status == 413 && rej.message@ == "Image payload exceeds 20 MB maximum limit"@
    } else {
        r == Ok::<EmbedRoute, Rejection>(EmbedRoute::Image)
    }
}

/// Route an upload to embed: refused above [`MAX_VIDEO_PAYLOAD_SIZE`] (413); audio
/// first; then an unrecognised container is refused (415); PNG and JPEG are images
/// (413 above [`MAX_IMAGE_PAYLOAD_SIZE`]); a WebP is a clip when its frames decode
/// and an image otherwise; GIF, MP4 and WebM are clips.
pub fn embed_route(buffer: &[u8]) -> (r: Result<EmbedRoute, Rejection>)
    ensures
        buffer@.len() > MAX_VIDEO_PAYLOAD_SIZE ==> (r matches Err(rej) && rej.status == 413 && rej.message@
            == "Payload exceeds 200 MB maximum limit"@),
        buffer@.len() <= MAX_VIDEO_PAYLOAD_SIZE ==> match spec_audio_format(buffer@) {
            Some(_) => r == Ok::<EmbedRoute, Rejection>(EmbedRoute::Audio),
            None => match spec_media_format(buffer@) {
                None => r matches Err(rej) && rej.status == 415 && rej.message@ == "Invalid request payload: "@
                    + sniff_failure(buffer@),
                Some(f) => if f == "png"@ || f == "jpeg"@ {
                    image_answer(buffer@.len() as int, r)
                } else if f == "webp"@ {
                    r == Ok::<EmbedRoute, Rejection>(EmbedRoute::Clip) || image_answer(buffer@.len() as int, r)
                } else {
                    r == Ok::<EmbedRoute, Rejection>(EmbedRoute::Clip)
                },
            },
        },
{
    if buffer.len() > MAX_VIDEO_PAYLOAD_SIZE {
        return Err(Rejection { status: 413, message: String::from_str("Payload exceeds 200 MB maximum limit") });
    }
    if sniff_audio_format(buffer).is_some() {
        return Ok(EmbedRoute::Audio);
    }
    let format: &'static str = match sniff_media_format(buffer) {
        Ok(f) => f,
        Err(e) => {
            return Err(Rejection { status: 415, message: e.message() });
        },
    };
    let f: Vec<char> = to_chars(format);
    proof {
        reveal_strlit("png");
        reveal_strlit("jpeg");
        reveal_strlit("webp");
    }
    let still: bool = if chars_eq(&f, "png") || chars_eq(&f, "jpeg") {
        true
    } else if chars_eq(&f, "webp") {
        !(match decode_clip_bytes(buffer, 1) {
            Ok(_) => true,
            Err(_) => false,
        })
    } else {
        false
    };
    if still {
        if buffer.len() > MAX_IMAGE_PAYLOAD_SIZE {
            return Err(
                Rejection { status: 413, message: String::from_str("Image payload exceeds 20 MB maximum limit") },
            );
        }
        Ok(EmbedRoute::Image)
    } else {
        Ok(EmbedRoute::Clip)
    }
}

/// A registration name fits: not empty, and at most 64 bytes of UTF-8.
pub open spec fn name_fits(t: Seq<char>) -> bool {
    t.len() > 0 && vstd::utf8::encode_utf8(t).len() <= 64
}

/// The name a gesture, a sound or a cue is registered under: `raw` trimmed, refused
/// (400) unless it is 1 to 64 bytes long.
pub fn registration_name(raw: &str) -> (r: Result<String, Rejection>)
    ensures
        r is Ok <==> name_fits(trimmed(raw@)),
        r matches Ok(n) ==> n@ == trimmed(raw@),
        r matches Err(e) ==> e.status == 400 && e.message@ == "'name' must be 1-64 characters"@,
{
    let name: String = trim(raw);
    let chars: usize = name.as_str().unicode_len();
    proof {
        lemma_utf8_len_bounds(name@);
    }
    if chars == 0 || chars > 64 || name.as_str().len() > 64 {
        return Err(Rejection { status: 400, message: String::from_str("'name' must be 1-64 characters") });
    }
    Ok(name)
}

/// Each character takes one to four bytes of UTF-8.
proof fn lemma_utf8_len_bounds(t: Seq<char>)
    ensures
        t.len() <= vstd::utf8::encode_utf8(t).len() <= 4 * t.len(),
    decreases t.len(),
{
    if t.len() > 0 {
        lemma_utf8_len_bounds(t.drop_first());
    }
}

/// Where the vector of a gesture sample comes from.
#[derive(Debug, Clone, Copy, PartialEq, Eq, Structural)]
pub enum InputSource {
    /// The current camera frame, embedded by the loaded model.
    Camera,
    /// A vector supplied with the request.
    Embedding,
    /// An image supplied with the request (base64 or a data URI), embedded.
    Image,
}

/// The source a sample request uses: the camera when asked for, else a supplied
/// vector (which must not be empty), else a supplied image; a request with none of
/// them is refused (400).
pub fn input_source(from_camera: bool, embedding_len: Option<usize>, has_image: bool) -> (r: Result<
    InputSource,
    Rejection,
>)
    ensures
        from_camera ==> r == Ok::<InputSource, Rejection>(InputSource::Camera),
        !from_camera && embedding_len == Some(0usize) ==> (r matches Err(e) && e.status == 400
            && e.message@ == "'embedding' must not be empty"@),
        !from_camera && (embedding_len matches Some(n) && n > 0) ==> r == Ok::<InputSource, Rejection>(
            InputSource::Embedding,
        ),
        !from_camera && embedding_len is None && has_image ==> r == Ok::<InputSource, Rejection>(InputSource::Image),
        !from_camera && embedding_len is None && !has_image ==> (r matches Err(e) && e.status == 400
            && e.message@ == "Provide one input: 'from_camera': true, 'embedding' or 'image_base64'"@),
{
    if from_camera {
        return Ok(InputSource::Camera);
    }
    match embedding_len {
        Some(n) => {
            if n == 0 {
                Err(Rejection { status: 400, message: String::from_str("'embedding' must not be empty") })
            } else {
                Ok(InputSource::Embedding)
            }
        },
        None => if has_image {
            Ok(InputSource::Image)
        } else {
            Err(
                Rejection {
                    status: 400,
                    message: String::from_str("Provide one input: 'from_camera': true, 'embedding' or 'image_base64'"),
                },
            )
        },
    }
}

/// Which registered gestures (or sounds) a request is about.
#[derive(Debug, Clone, PartialEq, Eq)]
pub enum RegistryScope {
    /// Every one, whatever its model.
    Every,
    /// Those embedded with this model.
    OfModel(String),
    /// None at all.
    Nothing,
}

/// What a listing shows: everything with `all`; else the named model's entries, or
/// the active model's; nothing when no model is named or active.
pub fn listing_scope(all: bool, model: Option<String>, active: Option<String>) -> (r: RegistryScope)
    ensures
        all ==> r == RegistryScope::Every,
        !all ==> match (model, active) {
            (Some(m), _) => r matches RegistryScope::OfModel(x) && x@ == m@,
            (None, Some(a)) => r matches RegistryScope::OfModel(x) && x@ == a@,
            (None, None) => r == RegistryScope::Nothing,
        },
{
    if all {
        return RegistryScope::Every;
    }
    match model {
        Some(m) => RegistryScope::OfModel(m),
        None => match active {
            Some(a) => RegistryScope::OfModel(a),
            None => RegistryScope::Nothing,
        },
    }
}

/// What a clearing removes: everything with `all`; else the named model's entries,
/// or the active model's; everything when no model is named or active.
pub fn clearing_scope(all: bool, model: Option<String>, active: Option<String>) -> (r: RegistryScope)
    ensures
        all ==> r == RegistryScope::Every,
        !all ==> match (model, active) {
            (Some(m), _) => r matches RegistryScope::OfModel(x) && x@ == m@,
            (None, Some(a)) => r matches RegistryScope::OfModel(x) && x@ == a@,
            (None, None) => r == RegistryScope::Every,
        },
{
    match listing_scope(all, model, active) {
        RegistryScope::Nothing => RegistryScope::Every,
        s => s,
    }
}

/// Where an embedding stream stands: the ring-buffer sequence number it embedded
/// last, the error it reported last (cleared by a success), and how many events it
/// has sent.
pub struct StreamCursor {
    pub last_sequence: u64,
    pub last_error: Option<String>,
    pub frame_index: u64,
}

impl StreamCursor {
    /// A stream that has seen no frame (sequence 0), no error and sent nothing.
    pub fn new() -> (c: Self)
        ensures
            c.last_sequence == 0,
            c.last_error is None,
            c.frame_index == 0,
    {
        StreamCursor { last_sequence: 0, last_error: None, frame_index: 0 }
    }
}

/// A tick of the stream, with the sequence number of the newest frame in the ring
/// (none when it is empty, read as 0): work is done only for a frame not embedded yet.
pub fn stream_on_tick(c: &mut StreamCursor, latest: Option<u64>) -> (go: bool)
    ensures
        go == (latest.unwrap_or(0) != old(c).last_sequence),
        final(c).last_sequence == latest.unwrap_or(0),
        final(c).last_error == old(c).last_error,
        final(c).frame_index == old(c).frame_index,
{
    let seq: u64 = match latest {
        Some(s) => s,
        None => 0,
    };
    let go: bool = seq != c.last_sequence;
    c.last_sequence = seq;
    go
}

/// The frame could not be embedded, with `msg`: it is reported only when it differs
/// from the error reported last, and becomes the error reported last.
pub fn stream_on_error(c: &mut StreamCursor, msg: String) -> (emit: bool)
    ensures
        emit == !(old(c).last_error matches Some(e) && e@ == msg@),
        final(c).last_error matches Some(e) && e@ == msg@,
        final(c).last_sequence == old(c).last_sequence,
        final(c).frame_index == old(c).frame_index,
{
    let same: bool = match &c.last_error {
        Some(e) => {
            let ec: Vec<char> = to_chars(e.as_str());
            chars_eq(&ec, msg.as_str())
        },
        None => false,
    };
    c.last_error = Some(msg);
    !same
}

/// The frame was embedded: the error is cleared and the event gets the next index.
pub fn stream_on_success(c: &mut StreamCursor) -> (index: u64)
    requires
        old(c).frame_index < u64::MAX,
    ensures
        index == old(c).frame_index + 1,
        final(c).frame_index == index,
        final(c).last_error is None,
        final(c).last_sequence == old(c).last_sequence,
{
    c.frame_index = c.frame_index + 1;
    c.last_error = None;
    c.frame_index
}

} // verus!
