//! What the model sees of a camera frame: an optional region of interest, then the
//! centred square, resized to the model's input side.

use vstd::prelude::*;

use image::imageops::{resize, FilterType};
use image::{ImageReader, RgbImage};
use std::io::Cursor;

use crate::canvas::{byte_pixel, pixel_index, rgb_bytes, Canvas, Color};
use crate::media::{sniff_failure, sniff_media_format, spec_media_format};
use crate::types::JepaError;

verus! {

/// Side length of the model view: the centre-cropped square every frame is reduced
/// to before it is embedded.
pub const MODEL_VIEW_SIZE: u32 = 224;

/// The pixels of a raster `width` pixels wide inside the `w` x `h` rectangle whose
/// top-left corner is `(x, y)`, row by row.
pub open spec fn cropped_raster(width: int, raster: Seq<Color>, x: int, y: int, w: int, h: int) -> Seq<Color> {
    Seq::new((w * h) as nat, |k: int| raster[pixel_index(width, x + k % w, y + k / w)])
}

/// The pixels of `img` inside the `w` x `h` rectangle whose top-left corner is
/// `(x, y)`, row by row.
pub open spec fn cropped(img: Canvas, x: int, y: int, w: int, h: int) -> Seq<Color> {
    cropped_raster(img.width(), img.raster(), x, y, w, h)
}

/// The pixels of `img` inside the `w` x `h` rectangle whose top-left corner is `(x, y)`.
pub fn crop(img: &Canvas, x: u32, y: u32, w: u32, h: u32) -> (c: Canvas)
    requires
        img.well_formed(),
        x + w <= img.width(),
        y + h <= img.height(),
    ensures
        c.well_formed(),
        c.width() == w,
        c.height() == h,
        c.raster() == cropped(*img, x as int, y as int, w as int, h as int),
        forall|i: int, j: int|
            0 <= i < w && 0 <= j < h ==> #[trigger] c.pixel_at(i, j) == img.pixel_at(x + i, y + j),
{
    proof {
        img.lemma_raster_len();
    }
    let mut out: Vec<Color> = Vec::new();
    let mut j: u32 = 0;
    while j < h
        invariant
            img.well_formed(),
            x + w <= img.width() <= u32::MAX,
            y + h <= img.height() <= u32::MAX,
            j <= h,
            out@.len() == j * w,
            forall|ii: int, jj: int|
                0 <= ii < w && 0 <= jj < j ==> #[trigger] out@[pixel_index(w as int, ii, jj)] == img.pixel_at(
                    x + ii,
                    y + jj,
                ),
        decreases h - j,
    {
        let mut i: u32 = 0;
        while i < w
            invariant
                img.well_formed(),
                x + w <= img.width() <= u32::MAX,
                y + h <= img.height() <= u32::MAX,
                j < h,
                i <= w,
                out@.len() == j * w + i,
                forall|ii: int, jj: int|
                    0 <= ii < w && 0 <= jj < j ==> #[trigger] out@[pixel_index(w as int, ii, jj)]
                        == img.pixel_at(x + ii, y + jj),
                forall|ii: int| 0 <= ii < i ==> #[trigger] out@[pixel_index(w as int, ii, j as int)] == img.pixel_at(
                    x + ii,
                    y + j,
                ),
            decreases w - i,
        {
            let p: Color = img.pixel(x + i, y + j);
            let ghost before = out@;
            out.push(p);
            proof {
                assert forall|ii: int, jj: int|
                    0 <= ii < w && 0 <= jj < j implies #[trigger] out@[pixel_index(w as int, ii, jj)]
                        == img.pixel_at(x + ii, y + jj) by {
                    assert(pixel_index(w as int, ii, jj) < j * w) by (nonlinear_arith)
                        requires
                            0 <= ii < w,
                            0 <= jj < j,
                    ;
                    assert(out@[pixel_index(w as int, ii, jj)] == before[pixel_index(w as int, ii, jj)]);
                }
                assert forall|ii: int| 0 <= ii < i + 1 implies #[trigger] out@[pixel_index(w as int, ii, j as int)]
                    == img.pixel_at(x + ii, y + j) by {
                    if ii < i {
                        assert(out@[pixel_index(w as int, ii, j as int)] == before[pixel_index(
                            w as int,
                            ii,
                            j as int,
                        )]);
                    }
                }
            }
            i = i + 1;
        }
        proof {
            assert(j * w + w == (j + 1) * w) by (nonlinear_arith);
        }
        j = j + 1;
    }
    proof {
        assert(h * w == w * h) by (nonlinear_arith);
    }
    let c = Canvas::from_pixels(w, h, out).unwrap();
    proof {
        assert forall|i: int, j: int| 0 <= i < w && 0 <= j < h implies #[trigger] c.pixel_at(i, j) == img.pixel_at(
            x + i,
            y + j,
        ) by {
            assert(c.pixel_at(i, j) == out@[pixel_index(w as int, i, j)]);
        }
        assert forall|k: int| 0 <= k < w * h implies #[trigger] c.raster()[k] == cropped(
            *img,
            x as int,
            y as int,
            w as int,
            h as int,
        )[k] by {
            let i = k % (w as int);
            let j = k / (w as int);
            assert(0 <= i < w && 0 <= j < h && k == j * w + i) by (nonlinear_arith)
                requires
                    0 <= k < w * h,
                    i == k % (w as int),
                    j == k / (w as int),
            ;
            assert(c.pixel_at(i, j) == out@[pixel_index(w as int, i, j)]);
        }
        assert(c.raster() =~= cropped(*img, x as int, y as int, w as int, h as int));
    }
    c
}

/// The centred square of a `width` x `height` frame: its left edge, top edge and
/// side (the smaller dimension).
pub open spec fn spec_centre_square(width: int, height: int) -> (int, int, int) {
    let side = if width < height {
        width
    } else {
        height
    };
    ((width - side) / 2, (height - side) / 2, side)
}

/// Left edge, top edge and side of the centred square of a `width` x `height` frame.
pub fn centre_square(width: u32, height: u32) -> (r: (u32, u32, u32))
    ensures
        (r.0 as int, r.1 as int, r.2 as int) == spec_centre_square(width as int, height as int),
        r.0 + r.2 <= width,
        r.1 + r.2 <= height,
{
    let side: u32 = if width < height {
        width
    } else {
        height
    };
    ((width - side) / 2, (height - side) / 2, side)
}

/// A resampling filter of `image::imageops`.
#[derive(Debug, Clone, Copy, PartialEq, Eq)]
pub enum Resampling {
    Nearest,
    Triangle,
    CatmullRom,
}

/// What resampling a `width` x `height` RGB raster (bytes row by row) to
/// `nwidth` x `nheight` with `filter` gives.
pub uninterp spec fn resampled(width: u32, height: u32, rgb: Seq<u8>, nwidth: u32, nheight: u32, filter: Resampling) -> Seq<u8>;

/// `image::imageops::resize` of an RGB raster to `nwidth` x `nheight` with the
/// filter's `FilterType`. The contract names the resampled bytes and states their
/// count (the output buffer is allocated for exactly `nwidth * nheight` pixels,
/// which must be addressable); the resampling itself is left unstated.
#[verifier::external_body]
pub(crate) fn resize_rgb(width: u32, height: u32, rgb: Vec<u8>, nwidth: u32, nheight: u32, filter: Resampling) -> (out: Vec<u8>)
    requires
        rgb@.len() == width * height * 3,
        nwidth * nheight * 3 <= usize::MAX,
    ensures
        out@ == resampled(width, height, rgb@, nwidth, nheight, filter),
        out@.len() == nwidth * nheight * 3,
{
    let img = RgbImage::from_raw(width, height, rgb).unwrap();
    let f = match filter {
        Resampling::Nearest => FilterType::Nearest,
        Resampling::Triangle => FilterType::Triangle,
        Resampling::CatmullRom => FilterType::CatmullRom,
    };
    resize(&img, nwidth, nheight, f).into_raw()
}

/// The `side` x `side` raster given by resampled bytes.
pub fn square_from_rgb(side: u32, rgb: &Vec<u8>) -> (c: Canvas)
    requires
        rgb@.len() == side * side * 3,
    ensures
        c.well_formed(),
        c.width() == side,
        c.height() == side,
        forall|i: int| 0 <= i < side * side ==> #[trigger] c.raster()[i] == crate::canvas::byte_pixel(rgb@, 3, i),
{
    Canvas::from_bytes(side, side, rgb, 3)
}

/// The pixels of a `side` x `side` raster given as RGB bytes.
pub open spec fn square_pixels(side: int, rgb: Seq<u8>) -> Seq<Color> {
    Seq::new((side * side) as nat, |i: int| crate::canvas::byte_pixel(rgb, 3, i))
}

/// The model view of a `width` x `height` raster: its centred square, resampled
/// (Catmull-Rom) to `size` x `size`.
pub open spec fn model_view_of(width: int, height: int, raster: Seq<Color>, size: u32) -> Seq<Color> {
    let (sx, sy, side) = spec_centre_square(width, height);
    square_pixels(
        size as int,
        resampled(
            side as u32,
            side as u32,
            rgb_bytes(cropped_raster(width, raster, sx, sy, side, side)),
            size,
            size,
            Resampling::CatmullRom,
        ),
    )
}

/// The model view of a frame.
pub open spec fn model_view(image: Canvas, size: u32) -> Seq<Color> {
    model_view_of(image.width(), image.height(), image.raster(), size)
}

/// Centre-crop a frame to a square and resize it to `size` x `size`.
pub fn to_model_view(image: &Canvas, size: u32) -> (c: Canvas)
    requires
        image.well_formed(),
        image.width() > 0,
        image.height() > 0,
        size * size * 3 <= usize::MAX,
    ensures
        c.well_formed(),
        c.width() == size,
        c.height() == size,
        c.raster() == model_view(*image, size),
{
    let (sx, sy, side) = centre_square(image.width_px(), image.height_px());
    let square: Canvas = crop(image, sx, sy, side, side);
    let bytes: Vec<u8> = square.to_rgb_bytes();
    proof {
        square.lemma_raster_len();
        assert(side * side == square.raster().len()) by (nonlinear_arith)
            requires
                square.raster().len() == square.width() * square.height(),
                square.width() == side,
                square.height() == side,
        ;
    }
    let resized: Vec<u8> = resize_rgb(side, side, bytes, size, size, Resampling::CatmullRom);
    let c = square_from_rgb(size, &resized);
    proof {
        c.lemma_raster_len();
        assert(c.raster() =~= square_pixels(size as int, resized@));
    }
    c
}

/// A region of interest in pixels: the normalised region scaled by the frame's
/// width and height and rounded.
pub struct PixelRoi {
    pub x: i64,
    pub y: i64,
    pub w: i64,
    pub h: i64,
}

/// `v` clamped to `[lo, hi]` (`lo <= hi`).
pub open spec fn clamp_to(v: int, lo: int, hi: int) -> int {
    if v < lo {
        lo
    } else if v > hi {
        hi
    } else {
        v
    }
}

/// The rectangle a region of interest selects on a `width` x `height` frame: its
/// corner clamped onto the frame, its size clamped between one pixel and what is
/// left of the frame.
pub open spec fn roi_rect(width: int, height: int, roi: PixelRoi) -> (int, int, int, int) {
    let x0 = clamp_to(roi.x as int, 0, width - 1);
    let y0 = clamp_to(roi.y as int, 0, height - 1);
    (x0, y0, clamp_to(roi.w as int, 1, width - x0), clamp_to(roi.h as int, 1, height - y0))
}

/// A region of interest always selects at least one pixel, and only pixels of the
/// frame.
pub proof fn lemma_roi_never_empty(width: int, height: int, roi: PixelRoi)
    requires
        width > 0,
        height > 0,
    ensures
        ({
            let (x0, y0, cw, ch) = roi_rect(width, height, roi);
            &&& 0 <= x0 && x0 + cw <= width
            &&& 0 <= y0 && y0 + ch <= height
            &&& cw >= 1 && ch >= 1
        }),
{
}

fn clamp_i64(v: i64, lo: i64, hi: i64) -> (r: i64)
    requires
        lo <= hi,
    ensures
        r == clamp_to(v as int, lo as int, hi as int),
{
    if v < lo {
        lo
    } else if v > hi {
        hi
    } else {
        v
    }
}

/// Crop a frame to a region of interest (clamped onto the frame, never empty).
pub fn crop_roi(image: &Canvas, roi: &PixelRoi) -> (c: Canvas)
    requires
        image.well_formed(),
        image.width() > 0,
        image.height() > 0,
    ensures
        c.well_formed(),
        ({
            let (x0, y0, cw, ch) = roi_rect(image.width(), image.height(), *roi);
            &&& c.width() == cw
            &&& c.height() == ch
            &&& c.raster() == cropped(*image, x0, y0, cw, ch)
            &&& forall|i: int, j: int|
                0 <= i < cw && 0 <= j < ch ==> #[trigger] c.pixel_at(i, j) == image.pixel_at(x0 + i, y0 + j)
        }),
{
    let width: i64 = image.width_px() as i64;
    let height: i64 = image.height_px() as i64;
    let x0: i64 = clamp_i64(roi.x, 0, width - 1);
    let y0: i64 = clamp_i64(roi.y, 0, height - 1);
    let cw: i64 = clamp_i64(roi.w, 1, width - x0);
    let ch: i64 = clamp_i64(roi.h, 1, height - y0);
    crop(image, x0 as u32, y0 as u32, cw as u32, ch as u32)
}

/// What the model is shown of a frame: the region of interest when there is one,
/// else the whole frame.
pub fn model_input_image(image: Canvas, roi: Option<&PixelRoi>) -> (c: Canvas)
    requires
        image.well_formed(),
        image.width() > 0,
        image.height() > 0,
    ensures
        c.well_formed(),
        roi is None ==> c == image,
        roi matches Some(r) ==> c.width() == roi_rect(image.width(), image.height(), *r).2 && c.height()
            == roi_rect(image.width(), image.height(), *r).3,
{
    match roi {
        Some(r) => crop_roi(&image, r),
        None => image,
    }
}

/// What decoding `bytes` as a still image gives (format guessed from the content,
/// default limits): width, height and RGB bytes row by row, or the decoder's message.
pub uninterp spec fn image_decoded(bytes: Seq<u8>) -> Result<(u32, u32, Seq<u8>), Seq<char>>;

/// `ImageReader::new(..).with_guessed_format()` then `decode()` and `to_rgb8()`: the
/// decoded image as width, height and RGB bytes ([`image_decoded`]), or the error's
/// message. An RGB buffer holds exactly three bytes per pixel.
#[verifier::external_body]
fn decode_rgb(bytes: &[u8]) -> (r: Result<(u32, u32, Vec<u8>), String>)
    ensures
        r matches Ok(t) ==> (image_decoded(bytes@) matches Ok(d) && d == (t.0, t.1, t.2@)),
        r matches Err(m) ==> (image_decoded(bytes@) matches Err(x) && x == m@),
        r matches Ok(t) ==> t.2@.len() == t.0 * t.1 * 3,
{
    let reader = ImageReader::new(Cursor::new(bytes)).with_guessed_format().map_err(|e| e.to_string())?;
    let img = reader.decode().map_err(|e| e.to_string())?.to_rgb8();
    let (w, h) = img.dimensions();
    Ok((w, h, img.into_raw()))
}

/// Decode an uploaded still image into a raster. Bytes whose container is not
/// recognised are refused as the format sniffer refuses them; the decoder's refusal
/// is an image-processing error.
pub fn decode_image_bytes(bytes: &[u8]) -> (r: Result<Canvas, JepaError>)
    ensures
        spec_media_format(bytes@) is None ==> (r matches Err(JepaError::InvalidPayload(m)) && m@ == sniff_failure(
            bytes@,
        )),
        spec_media_format(bytes@) is Some ==> match image_decoded(bytes@) {
            Err(m) => r matches Err(JepaError::ImageProcessing(x)) && x@ == m,
            Ok(d) => r matches Ok(c) && c.well_formed() && c.width() == d.0 && c.height() == d.1 && forall|i: int|
                0 <= i < d.0 * d.1 ==> #[trigger] c.raster()[i] == byte_pixel(d.2, 3, i),
        },
{
    match sniff_media_format(bytes) {
        Err(e) => {
            return Err(e);
        },
        Ok(_) => {},
    }
    match decode_rgb(bytes) {
        Err(m) => Err(JepaError::ImageProcessing(m)),
        Ok(t) => {
            let (w, h, px) = t;
            Ok(Canvas::from_bytes(w, h, &px, 3))
        },
    }
}

} // verus!
