//! Camera frames as the ring keeps them: the frame, a small JPEG thumbnail for the
//! scrubber, and the JPEG of what the model sees.

use vstd::prelude::*;

use image::imageops::FilterType;
use image::{DynamicImage, ImageFormat, RgbImage};
use std::io::Cursor;

use crate::api::CameraSource;
use crate::canvas::{rgb_bytes, Canvas};
use crate::data_uri::{base64_encoded, jpeg_data_uri};
use crate::frame::{
    cropped, crop_roi, model_view, model_view_of, resampled, resize_rgb, roi_rect, to_model_view, PixelRoi, Resampling,
    MODEL_VIEW_SIZE,
};
use crate::text::{contains_text, decimal, spec_decimal, text_contains};
use crate::window::{last_n, FrameEntry, RingBuffer};

verus! {

/// Width of the scrubber thumbnails.
pub const THUMBNAIL_WIDTH: u32 = 96;

/// Height of the scrubber thumbnails.
pub const THUMBNAIL_HEIGHT: u32 = 54;

/// What baseline JPEG encoding (quality 75) of a `width` x `height` RGB raster
/// gives: the file, or the encoder's message.
pub uninterp spec fn jpeg_encoded(width: u32, height: u32, rgb: Seq<u8>) -> Result<Seq<u8>, Seq<char>>;

/// `DynamicImage::write_to` with `ImageFormat::Jpeg` on an RGB raster, into memory;
/// the error is the encoder's message. The contract names the outcome after the
/// raster alone.
#[verifier::external_body]
fn encode_jpeg(width: u32, height: u32, rgb: &Vec<u8>) -> (r: Result<Vec<u8>, String>)
    requires
        rgb@.len() == width * height * 3,
    ensures
        jpeg_encoded(width, height, rgb@) == match r {
            Ok(v) => Ok(v@),
            Err(m) => Err::<Seq<u8>, Seq<char>>(m@),
        },
{
    let img = RgbImage::from_raw(width, height, rgb.clone()).unwrap();
    let mut out = Cursor::new(Vec::new());
    match DynamicImage::ImageRgb8(img).write_to(&mut out, ImageFormat::Jpeg) {
        Ok(()) => Ok(out.into_inner()),
        Err(e) => Err(e.to_string()),
    }
}

/// What `DynamicImage::resize` with the triangle filter makes of a `width` x
/// `height` RGB raster fitted within `side` x `side` (aspect ratio kept): its width,
/// height and bytes.
pub uninterp spec fn fitted(width: u32, height: u32, rgb: Seq<u8>, side: u32) -> (u32, u32, Seq<u8>);

/// `DynamicImage::resize(side, side, FilterType::Triangle)` on an RGB raster. The
/// contract names the result and states that it is a whole raster of at least one
/// pixel (the crate rounds each side to at least 1 and allocates exactly).
#[verifier::external_body]
fn fit_triangle(width: u32, height: u32, rgb: &Vec<u8>, side: u32) -> (r: (u32, u32, Vec<u8>))
    requires
        rgb@.len() == width * height * 3,
        width > 0,
        height > 0,
    ensures
        fitted(width, height, rgb@, side) == (r.0, r.1, r.2@),
        r.0 >= 1,
        r.1 >= 1,
        r.2@.len() == r.0 * r.1 * 3,
{
    let img = RgbImage::from_raw(width, height, rgb.clone()).unwrap();
    let out = DynamicImage::ImageRgb8(img).resize(side, side, FilterType::Triangle).to_rgb8();
    (out.width(), out.height(), out.into_raw())
}

/// The file a JPEG encoding gives, or nothing when it fails.
pub open spec fn jpeg_or_empty(width: u32, height: u32, rgb: Seq<u8>) -> Seq<u8> {
    match jpeg_encoded(width, height, rgb) {
        Ok(b) => b,
        Err(_) => Seq::empty(),
    }
}

/// The scrubber thumbnail of a frame: resampled (nearest) to
/// [`THUMBNAIL_WIDTH`] x [`THUMBNAIL_HEIGHT`], as a JPEG `data:` URI.
pub open spec fn thumbnail_uri(image: Canvas) -> Seq<char> {
    "data:image/jpeg;base64,"@ + base64_encoded(
        jpeg_or_empty(
            THUMBNAIL_WIDTH,
            THUMBNAIL_HEIGHT,
            resampled(
                image.width() as u32,
                image.height() as u32,
                rgb_bytes(image.raster()),
                THUMBNAIL_WIDTH,
                THUMBNAIL_HEIGHT,
                Resampling::Nearest,
            ),
        ),
    )
}

/// The JPEG of a frame's model view at [`MODEL_VIEW_SIZE`].
pub open spec fn model_view_jpeg(image: Canvas) -> Seq<u8> {
    jpeg_or_empty(MODEL_VIEW_SIZE, MODEL_VIEW_SIZE, rgb_bytes(model_view(image, MODEL_VIEW_SIZE)))
}

/// A captured frame with what the UI shows of it.
pub struct CameraFrame {
    pub image: Canvas,
    /// JPEG thumbnail as a `data:` URI (empty payload when encoding failed).
    pub thumbnail_base64: String,
    /// JPEG of exactly what the model receives (centre crop at the model size;
    /// empty when encoding failed).
    pub model_view_jpeg: Vec<u8>,
}

/// A frame the ring can hold: a well-formed, non-empty raster.
pub open spec fn frame_ok(f: CameraFrame) -> bool {
    f.image.well_formed() && f.image.width() > 0 && f.image.height() > 0
}

/// Every frame of the ring can be shown.
pub open spec fn frames_ok(s: Seq<FrameEntry<CameraFrame>>) -> bool {
    forall|i: int| 0 <= i < s.len() ==> frame_ok(#[trigger] s[i].payload)
}

/// The frame with its thumbnail and its model-view JPEG.
pub fn camera_frame(image: Canvas) -> (f: CameraFrame)
    requires
        image.well_formed(),
        image.width() > 0,
        image.height() > 0,
    ensures
        f.image == image,
        f.thumbnail_base64@ == thumbnail_uri(image),
        f.model_view_jpeg@ == model_view_jpeg(image),
{
    proof {
        image.lemma_raster_len();
    }
    let rgb: Vec<u8> = image.to_rgb_bytes();
    let thumb: Vec<u8> = resize_rgb(
        image.width_px(),
        image.height_px(),
        rgb,
        THUMBNAIL_WIDTH,
        THUMBNAIL_HEIGHT,
        Resampling::Nearest,
    );
    let thumb_jpeg: Vec<u8> = match encode_jpeg(THUMBNAIL_WIDTH, THUMBNAIL_HEIGHT, &thumb) {
        Ok(b) => b,
        Err(_) => Vec::new(),
    };
    let uri: String = jpeg_data_uri(thumb_jpeg.as_slice());
    let view: Canvas = to_model_view(&image, MODEL_VIEW_SIZE);
    proof {
        view.lemma_raster_len();
    }
    let view_rgb: Vec<u8> = view.to_rgb_bytes();
    let view_jpeg: Vec<u8> = match encode_jpeg(MODEL_VIEW_SIZE, MODEL_VIEW_SIZE, &view_rgb) {
        Ok(b) => b,
        Err(_) => Vec::new(),
    };
    CameraFrame { image, thumbnail_base64: uri, model_view_jpeg: view_jpeg }
}

/// Insert a captured frame (with its thumbnail and model-view JPEG), dropping the
/// oldest when the ring is full.
pub fn push_camera_frame(rb: &mut RingBuffer<CameraFrame>, image: Canvas, timestamp_ms: u64)
    requires
        old(rb).well_formed(),
        old(rb).pushed_count() < u64::MAX,
        frames_ok(old(rb).frames()),
        image.well_formed(),
        image.width() > 0,
        image.height() > 0,
    ensures
        final(rb).well_formed(),
        frames_ok(final(rb).frames()),
        final(rb).capacity() == old(rb).capacity(),
        final(rb).pushed_count() == old(rb).pushed_count() + 1,
        final(rb).frames().len() > 0,
        final(rb).frames() == last_n(old(rb).frames().push(final(rb).frames().last()), old(rb).capacity() as int),
        final(rb).frames().last().payload.image == image,
        final(rb).frames().last().payload.thumbnail_base64@ == thumbnail_uri(image),
        final(rb).frames().last().payload.model_view_jpeg@ == model_view_jpeg(image),
        final(rb).frames().last().timestamp_ms == timestamp_ms,
        final(rb).frames().last().sequence == old(rb).pushed_count() + 1,
{
    let ghost before = rb.frames();
    let ghost cap = rb.capacity();
    let ghost seq = rb.pushed_count();
    let f = camera_frame(image);
    let ghost fv = f;
    rb.push_frame(f, timestamp_ms);
    proof {
        let t = before.push(FrameEntry { payload: fv, timestamp_ms, sequence: (seq + 1) as u64 });
        assert(frames_ok(t)) by {
            assert forall|i: int| 0 <= i < t.len() implies frame_ok(#[trigger] t[i].payload) by {
                if i < before.len() {
                    assert(t[i] == before[i]);
                }
            }
        }
        lemma_kept_frames(t, cap as int);
    }
}

/// Keeping the last `cap` frames keeps showable frames, and the newest one.
proof fn lemma_kept_frames(t: Seq<FrameEntry<CameraFrame>>, cap: int)
    requires
        cap >= 1,
        t.len() >= 1,
        frames_ok(t),
    ensures
        frames_ok(last_n(t, cap)),
        last_n(t, cap).len() > 0,
        last_n(t, cap).last() == t.last(),
{
    let s = last_n(t, cap);
    if cap < t.len() {
        assert forall|i: int| 0 <= i < s.len() implies frame_ok(#[trigger] s[i].payload) by {
            assert(s[i] == t[t.len() - cap + i]);
        }
    }
}

/// JPEG of exactly what the model receives from the latest frame (region of
/// interest applied, centre crop, `size` x `size`), with its sequence number. Without
/// a region it is the JPEG made at capture; none when the ring is empty or the
/// encoding fails.
pub fn latest_model_view_jpeg(rb: &RingBuffer<CameraFrame>, size: u32, roi: Option<&PixelRoi>) -> (r: Option<
    (Vec<u8>, u64),
>)
    requires
        frames_ok(rb.frames()),
        size * size * 3 <= usize::MAX,
    ensures
        rb.frames().len() == 0 ==> r is None,
        rb.frames().len() > 0 ==> ({
            let e = rb.frames().last();
            match roi {
                None => r matches Some(v) && v.0@ == e.payload.model_view_jpeg@ && v.1 == e.sequence,
                Some(p) => {
                    let img = e.payload.image;
                    let (x0, y0, cw, ch) = roi_rect(img.width(), img.height(), *p);
                    match jpeg_encoded(size, size, rgb_bytes(model_view_of(cw, ch, cropped(img, x0, y0, cw, ch), size))) {
                        Ok(b) => r matches Some(v) && v.0@ == b && v.1 == e.sequence,
                        Err(_) => r is None,
                    }
                },
            }
        }),
{
    let entry = match rb.latest() {
        Some(e) => e,
        None => {
            return None;
        },
    };
    proof {
        assert(frame_ok(rb.frames()[rb.frames().len() - 1].payload));
    }
    match roi {
        None => Some((entry.payload.model_view_jpeg.clone(), entry.sequence)),
        Some(p) => {
            let region: Canvas = crop_roi(&entry.payload.image, p);
            proof {
                crate::frame::lemma_roi_never_empty(entry.payload.image.width(), entry.payload.image.height(), *p);
            }
            let view: Canvas = to_model_view(&region, size);
            proof {
                view.lemma_raster_len();
            }
            let bytes: Vec<u8> = view.to_rgb_bytes();
            match encode_jpeg(size, size, &bytes) {
                Ok(b) => Some((b, entry.sequence)),
                Err(_) => None,
            }
        },
    }
}

/// A small JPEG of the full latest frame (for the region editor): fitted within
/// `max_side` x `max_side` when larger, with its sequence number and the frame's
/// own width and height; none when the ring is empty or the encoding fails.
pub fn latest_full_frame_jpeg(rb: &RingBuffer<CameraFrame>, max_side: u32) -> (r: Option<(Vec<u8>, u64, u32, u32)>)
    requires
        frames_ok(rb.frames()),
    ensures
        rb.frames().len() == 0 ==> r is None,
        rb.frames().len() > 0 ==> ({
            let e = rb.frames().last();
            let img = e.payload.image;
            let (w, h) = (img.width() as u32, img.height() as u32);
            let rgb = rgb_bytes(img.raster());
            let encoded = if w > max_side || h > max_side {
                let (w2, h2, b2) = fitted(w, h, rgb, max_side);
                jpeg_encoded(w2, h2, b2)
            } else {
                jpeg_encoded(w, h, rgb)
            };
            match encoded {
                Ok(b) => r matches Some(v) && v.0@ == b && v.1 == e.sequence && v.2 == w && v.3 == h,
                Err(_) => r is None,
            }
        }),
{
    let entry = match rb.latest() {
        Some(e) => e,
        None => {
            return None;
        },
    };
    proof {
        assert(frame_ok(rb.frames()[rb.frames().len() - 1].payload));
        entry.payload.image.lemma_raster_len();
    }
    let w: u32 = entry.payload.image.width_px();
    let h: u32 = entry.payload.image.height_px();
    let rgb: Vec<u8> = entry.payload.image.to_rgb_bytes();
    let encoded = if w > max_side || h > max_side {
        let (w2, h2, b2) = fit_triangle(w, h, &rgb, max_side);
        encode_jpeg(w2, h2, &b2)
    } else {
        encode_jpeg(w, h, &rgb)
    };
    match encoded {
        Ok(b) => Some((b, entry.sequence, w, h)),
        Err(_) => None,
    }
}

/// The thumbnails of the frames held, oldest first.
pub fn thumbnails(rb: &RingBuffer<CameraFrame>) -> (out: Vec<String>)
    ensures
        out@.len() == rb.frames().len(),
        forall|i: int| 0 <= i < out@.len() ==> #[trigger] out@[i]@ == rb.frames()[i].payload.thumbnail_base64@,
{
    let n: usize = rb.len();
    let mut out: Vec<String> = Vec::new();
    let mut i: usize = 0;
    while i < n
        invariant
            n == rb.frames().len(),
            i <= n,
            out@.len() == i,
            forall|j: int| 0 <= j < i ==> #[trigger] out@[j]@ == rb.frames()[j].payload.thumbnail_base64@,
        decreases n - i,
    {
        let e = rb.get(i).unwrap();
        out.push(e.payload.thumbnail_base64.clone());
        i = i + 1;
    }
    out
}

/// Seconds the device gets to produce its first frame before the synthetic test
/// pattern takes over.
pub const OPEN_TIMEOUT_SECS: u64 = 6;

/// What happens to a capture that was started (the source is then `Opening`).
#[derive(Debug, Clone, Copy, PartialEq, Eq, Structural)]
pub enum CameraEvent {
    /// The device opened its stream.
    DeviceOpened,
    /// The device could not be opened.
    DeviceFailed,
    /// No frame came within [`OPEN_TIMEOUT_SECS`].
    OpenTimedOut,
    /// The capture was stopped.
    Stop,
}

/// What the capture does on an event.
#[derive(Debug, Clone, Copy, PartialEq, Eq, Structural)]
pub enum CameraAction {
    /// Nothing changes.
    Nothing,
    /// Produce frames from the opened device.
    RunDevice,
    /// Produce the synthetic test pattern.
    StartSynthetic,
    /// The device opened too late: close it, the synthetic producer keeps running.
    DropDevice,
    /// Stop producing frames.
    StopProducer,
}

/// The capture's next source and action. A device that opens in time is used; a
/// failure or a timeout while opening falls back to the synthetic test pattern; a
/// device that opens once the pattern took over is dropped; a stop ends production.
/// After a stop, a late answer of the opening attempt still sets the source (the
/// device, or the pattern on a failure), but nothing is produced any more: the
/// device is closed at once, and a late timeout changes nothing.
pub open spec fn spec_camera_step(s: CameraSource, e: CameraEvent) -> (CameraSource, CameraAction) {
    match e {
        CameraEvent::Stop => (CameraSource::Off, CameraAction::StopProducer),
        CameraEvent::DeviceOpened => match s {
            CameraSource::Opening => (CameraSource::Device, CameraAction::RunDevice),
            CameraSource::Synthetic => (CameraSource::Synthetic, CameraAction::DropDevice),
            CameraSource::Off => (CameraSource::Device, CameraAction::DropDevice),
            CameraSource::Device => (CameraSource::Device, CameraAction::Nothing),
        },
        CameraEvent::DeviceFailed => match s {
            CameraSource::Opening => (CameraSource::Synthetic, CameraAction::StartSynthetic),
            CameraSource::Off => (CameraSource::Synthetic, CameraAction::Nothing),
            _ => (s, CameraAction::Nothing),
        },
        CameraEvent::OpenTimedOut => match s {
            CameraSource::Opening => (CameraSource::Synthetic, CameraAction::StartSynthetic),
            _ => (s, CameraAction::Nothing),
        },
    }
}

/// One decision of the capture supervisor.
pub fn camera_step(s: CameraSource, e: CameraEvent) -> (r: (CameraSource, CameraAction))
    ensures
        r == spec_camera_step(s, e),
{
    match e {
        CameraEvent::Stop => (CameraSource::Off, CameraAction::StopProducer),
        CameraEvent::DeviceOpened => match s {
            CameraSource::Opening => (CameraSource::Device, CameraAction::RunDevice),
            CameraSource::Synthetic => (CameraSource::Synthetic, CameraAction::DropDevice),
            CameraSource::Off => (CameraSource::Device, CameraAction::DropDevice),
            CameraSource::Device => (CameraSource::Device, CameraAction::Nothing),
        },
        CameraEvent::DeviceFailed => match s {
            CameraSource::Opening => (CameraSource::Synthetic, CameraAction::StartSynthetic),
            CameraSource::Off => (CameraSource::Synthetic, CameraAction::Nothing),
            _ => (s, CameraAction::Nothing),
        },
        CameraEvent::OpenTimedOut => match s {
            CameraSource::Opening => (CameraSource::Synthetic, CameraAction::StartSynthetic),
            _ => (s, CameraAction::Nothing),
        },
    }
}

/// Once started, the capture always ends up producing frames unless it is stopped:
/// whatever the opening attempt answers, or if it never answers, the source becomes
/// the device or the synthetic pattern, and neither a late device nor a late timeout
/// takes it off that source.
pub proof fn lemma_capture_always_produces(e1: CameraEvent, e2: CameraEvent)
    requires
        e1 != CameraEvent::Stop,
        e2 != CameraEvent::Stop,
    ensures
        ({
            let (s1, _) = spec_camera_step(CameraSource::Opening, e1);
            let (s2, _) = spec_camera_step(s1, e2);
            &&& (s1 == CameraSource::Device || s1 == CameraSource::Synthetic)
            &&& s2 == s1
        }),
{
}

/// The message recorded when camera `index` produced no frame in time.
pub open spec fn spec_timeout_message(index: nat) -> Seq<char> {
    "Camera "@ + spec_decimal(index) + " produced no frame within "@ + spec_decimal(OPEN_TIMEOUT_SECS as nat)
        + " s (on macOS: allow camera access for the app or terminal that launched jepctl in System Settings > Privacy & Security > Camera). Using the synthetic test pattern."@
}

/// The hint added when the device's error says it is held elsewhere.
pub open spec fn spec_busy_hint(detail: Seq<char>) -> Seq<char> {
    if contains_text(detail, "Lock Rejected"@) || contains_text(detail, "busy"@) || contains_text(detail, "in use"@) {
        " The device is held by another application or another jepctl instance: stop it and restart the camera."@
    } else {
        ""@
    }
}

/// The message recorded when camera `index` could not be opened, with the device's
/// error `detail`.
pub open spec fn spec_open_failure_message(index: nat, detail: Seq<char>) -> Seq<char> {
    "Could not open camera "@ + spec_decimal(index) + ": "@ + detail + "."@ + spec_busy_hint(detail)
        + " Using the synthetic test pattern."@
}

/// The message recorded when camera `index` produced no frame within
/// [`OPEN_TIMEOUT_SECS`].
pub fn timeout_message(index: usize) -> (m: String)
    ensures
        m@ == spec_timeout_message(index as nat),
{
    String::from_str("Camera ").concat(decimal(index as u64).as_str()).concat(" produced no frame within ").concat(
        decimal(OPEN_TIMEOUT_SECS).as_str(),
    ).concat(
        " s (on macOS: allow camera access for the app or terminal that launched jepctl in System Settings > Privacy & Security > Camera). Using the synthetic test pattern.",
    )
}

/// The message recorded when camera `index` could not be opened: the device's error,
/// with a hint when the device is locked, busy or in use elsewhere.
pub fn open_failure_message(index: usize, detail: &str) -> (m: String)
    ensures
        m@ == spec_open_failure_message(index as nat, detail@),
{
    let busy: bool = text_contains(detail, "Lock Rejected") || text_contains(detail, "busy") || text_contains(
        detail,
        "in use",
    );
    let hint: &str = if busy {
        " The device is held by another application or another jepctl instance: stop it and restart the camera."
    } else {
        ""
    };
    String::from_str("Could not open camera ").concat(decimal(index as u64).as_str()).concat(": ").concat(
        detail,
    ).concat(".").concat(hint).concat(" Using the synthetic test pattern.")
}

} // verus!
