use vstd::prelude::*;
use vstd::string::*;
use crate::text::{append_str, ascii_lower, decimal, push_decimal, starts_with, starts_with_str, str_eq, to_ascii_lowercase};
use crate::vcp_client::{guess_mime, mime_guess_for_path};
use crate::vcp_request::{path_extension, std_path_extension};
use base64::Engine;

verus! {

broadcast use vstd::string::group_string_axioms;

// ------------------------------------------------------------------ base64

/// The standard base64 alphabet.
pub open spec fn b64_char(v: nat) -> char {
    if v < 26 {
        ((v + 65) as u8) as char
    } else if v < 52 {
        ((v + 71) as u8) as char
    } else if v < 62 {
        ((v - 4) as u8) as char
    } else if v == 62 {
        '+'
    } else {
        '/'
    }
}

/// Standard base64 with `=` padding (RFC 4648).
pub open spec fn base64_spec(b: Seq<u8>) -> Seq<char>
    decreases b.len(),
{
    if b.len() == 0 {
        Seq::empty()
    } else if b.len() == 1 {
        seq![b64_char((b[0] / 4) as nat), b64_char(((b[0] % 4) * 16) as nat), '=', '=']
    } else if b.len() == 2 {
        seq![
            b64_char((b[0] / 4) as nat),
            b64_char(((b[0] % 4) * 16 + b[1] / 16) as nat),
            b64_char(((b[1] % 16) * 4) as nat),
            '=',
        ]
    } else {
        seq![
            b64_char((b[0] / 4) as nat),
            b64_char(((b[0] % 4) * 16 + b[1] / 16) as nat),
            b64_char(((b[1] % 16) * 4 + b[2] / 64) as nat),
            b64_char((b[2] % 64) as nat),
        ] + base64_spec(b.skip(3))
    }
}

/// `base64::engine::general_purpose::STANDARD.encode`: standard alphabet, padded.
#[verifier::external_body]
pub(crate) fn base64_encode(bytes: &[u8]) -> (r: String)
    ensures
        r@ == base64_spec(bytes@),
{
    base64::engine::general_purpose::STANDARD.encode(bytes)
}

// ------------------------------------------------------------------ audio

/// Audio ready for a model's `input_audio`: bare base64 and its format.
pub struct ProcessedAudio {
    pub data: String,
    pub format: String,
}

/// Packs extracted 16 kHz mono WAV bytes for a model request.
pub fn processed_audio_from_wav(wav_bytes: &[u8]) -> (r: ProcessedAudio)
    ensures
        r.data@ == base64_spec(wav_bytes@),
        r.format@ == "wav"@,
{
    ProcessedAudio { data: base64_encode(wav_bytes), format: String::from_str("wav") }
}

// ------------------------------------------------------------------ images

/// A JPEG as a data URL.
pub fn jpeg_data_url(jpeg_bytes: &[u8]) -> (r: String)
    ensures
        r@ == "data:image/jpeg;base64,"@ + base64_spec(jpeg_bytes@),
{
    let mut s = String::from_str("data:image/jpeg;base64,");
    let b = base64_encode(jpeg_bytes);
    append_str(&mut s, b.as_str());
    s
}

/// A channel of a pixel composited over white with the pixel's alpha.
pub open spec fn over_white(c: u8, alpha: u8) -> int {
    (c * alpha + 255 * (255 - alpha)) / 255
}

/// Composites RGBA pixels over white and drops the alpha, giving RGB.
pub fn flatten_rgba_over_white(rgba: &[u8]) -> (r: Vec<u8>)
    requires
        rgba@.len() % 4 == 0,
    ensures
        r@.len() == rgba@.len() / 4 * 3,
        forall|p: int, k: int|
            0 <= p < rgba@.len() / 4 && 0 <= k < 3 ==> #[trigger] r@[p * 3 + k] as int == over_white(
                rgba@[p * 4 + k],
                rgba@[p * 4 + 3],
            ),
{
    let mut out: Vec<u8> = Vec::new();
    let n = rgba.len() / 4;
    let mut p: usize = 0;
    let mut base: usize = 0;
    while p < n
        invariant
            n == rgba@.len() / 4,
            n * 4 == rgba@.len(),
            base == p * 4,
            rgba@.len() % 4 == 0,
            p <= n,
            out@.len() == p * 3,
            forall|q: int, k: int|
                0 <= q < p && 0 <= k < 3 ==> #[trigger] out@[q * 3 + k] as int == over_white(
                    rgba@[q * 4 + k],
                    rgba@[q * 4 + 3],
                ),
        decreases n - p,
    {
        let a = rgba[base + 3] as u16;
        let inv = 255 - a;
        let mut k: usize = 0;
        while k < 3
            invariant
                n == rgba@.len() / 4,
                p < n,
                n * 4 == rgba@.len(),
                base == p * 4,
                k <= 3,
                a == rgba@[p * 4 + 3],
                inv == 255 - a,
                out@.len() == p * 3 + k,
                forall|q: int, j: int|
                    0 <= q < p && 0 <= j < 3 ==> #[trigger] out@[q * 3 + j] as int == over_white(
                        rgba@[q * 4 + j],
                        rgba@[q * 4 + 3],
                    ),
                forall|j: int| 0 <= j < k ==> #[trigger] out@[p * 3 + j] as int == over_white(
                    rgba@[p * 4 + j],
                    rgba@[p * 4 + 3],
                ),
            decreases 3 - k,
        {
            let c = rgba[base + k] as u16;
            assert(c * a <= 255 * 255) by (nonlinear_arith)
                requires
                    c <= 255,
                    a <= 255,
            ;
            assert(255 * inv <= 255 * 255) by (nonlinear_arith)
                requires
                    inv <= 255,
            ;
            assert((c * a + 255 * inv) / 255 <= 255) by (nonlinear_arith)
                requires
                    c <= 255,
                    a <= 255,
                    inv == 255 - a,
            ;
            let v = ((c * a + 255 * inv) / 255) as u8;
            let ghost before = out@;
            out.push(v);
            proof {
                assert forall|q: int, j: int|
                    0 <= q < p && 0 <= j < 3 implies #[trigger] out@[q * 3 + j] as int == over_white(
                    rgba@[q * 4 + j],
                    rgba@[q * 4 + 3],
                ) by {
                    assert(q * 3 + j < p * 3) by (nonlinear_arith)
                        requires
                            0 <= q < p,
                            0 <= j < 3,
                    ;
                    assert(out@[q * 3 + j] == before[q * 3 + j]);
                }
                assert forall|j: int| 0 <= j < k + 1 implies #[trigger] out@[p * 3 + j] as int
                    == over_white(rgba@[p * 4 + j], rgba@[p * 4 + 3]) by {
                    if j < k {
                        assert(out@[p * 3 + j] == before[p * 3 + j]);
                    }
                }
            }
            k = k + 1;
        }
        p = p + 1;
        base = base + 4;
    }
    proof {
        assert(out@.len() == rgba@.len() / 4 * 3);
    }
    out
}

/// Why an image could not be converted by either route.
pub fn image_conversion_error(image_err: &str, ffmpeg_err: &str) -> (r: String)
    ensures
        r@ == "Rust image conversion failed: "@ + image_err@ + "; ffmpeg fallback failed: "@
            + ffmpeg_err@,
{
    let mut s = String::from_str("Rust image conversion failed: ");
    append_str(&mut s, image_err);
    append_str(&mut s, "; ffmpeg fallback failed: ");
    append_str(&mut s, ffmpeg_err);
    s
}

/// The RGB bytes of RGBA pixels composited over white.
pub open spec fn flattened(rgba: Seq<u8>) -> Seq<u8> {
    Seq::new(
        (rgba.len() / 4 * 3) as nat,
        |i: int| over_white(rgba[(i / 3) * 4 + i % 3], rgba[(i / 3) * 4 + 3]) as u8,
    )
}

proof fn lemma_flattened(rgba: Seq<u8>, out: Seq<u8>)
    requires
        rgba.len() % 4 == 0,
        out.len() == rgba.len() / 4 * 3,
        forall|p: int, k: int|
            0 <= p < rgba.len() / 4 && 0 <= k < 3 ==> #[trigger] out[p * 3 + k] as int == over_white(
                rgba[p * 4 + k],
                rgba[p * 4 + 3],
            ),
    ensures
        out == flattened(rgba),
{
    assert forall|i: int| 0 <= i < out.len() implies out[i] == flattened(rgba)[i] by {
        let p = i / 3;
        let k = i % 3;
        assert(i == p * 3 + k && 0 <= k < 3 && 0 <= p < rgba.len() / 4) by (nonlinear_arith)
            requires
                0 <= i < rgba.len() / 4 * 3,
                p == i / 3,
                k == i % 3,
        ;
        assert(out[p * 3 + k] as int == over_white(rgba[p * 4 + k], rgba[p * 4 + 3]));
        assert(0 <= over_white(rgba[p * 4 + k], rgba[p * 4 + 3]) <= 255) by (nonlinear_arith)
            requires
                rgba[p * 4 + k] <= 255,
                rgba[p * 4 + 3] <= 255,
        ;
    }
    assert(out =~= flattened(rgba));
}

/// Longest side an image is scaled down to before it is sent.
pub const MAX_IMAGE_SIDE: u32 = 1120;

/// Whether an image of this size is scaled down first.
pub fn needs_resize(width: u32, height: u32) -> (r: bool)
    ensures
        r == (width > MAX_IMAGE_SIDE || height > MAX_IMAGE_SIDE),
{
    width > MAX_IMAGE_SIDE || height > MAX_IMAGE_SIDE
}

// ------------------------------------------------------------------ video

/// The video type for an extension (lowercased), `video/mp4` when unknown.
pub open spec fn video_mime_for_ext(e: Seq<char>) -> Seq<char> {
    if e == "mp4"@ || e == "m4v"@ {
        "video/mp4"@
    } else if e == "mov"@ || e == "qt"@ {
        "video/quicktime"@
    } else if e == "webm"@ {
        "video/webm"@
    } else if e == "mkv"@ {
        "video/x-matroska"@
    } else if e == "avi"@ {
        "video/x-msvideo"@
    } else if e == "wmv"@ {
        "video/x-ms-wmv"@
    } else if e == "flv"@ {
        "video/x-flv"@
    } else if e == "3gp"@ {
        "video/3gpp"@
    } else if e == "3g2"@ {
        "video/3gpp2"@
    } else if e == "ts"@ || e == "mts"@ || e == "m2ts"@ {
        "video/mp2t"@
    } else {
        "video/mp4"@
    }
}

/// The media type a video is sent with: the declared one when it is a video type, else
/// the guess from the path when that is a video, else by the extension.
pub open spec fn video_mime_spec(path: Seq<char>, declared: Seq<char>) -> Seq<char> {
    if starts_with(declared, "video/"@) {
        declared
    } else if mime_guess_for_path(path).0 == "video"@ {
        mime_guess_for_path(path).1
    } else {
        video_mime_for_ext(
            ascii_lower(
                match std_path_extension(path) {
                    Some(e) => e,
                    None => Seq::empty(),
                },
            ),
        )
    }
}

/// Chooses the media type of an inline video.
pub fn video_mime_for_path(path: &str, declared_mime: &str) -> (r: String)
    ensures
        r@ == video_mime_spec(path@, declared_mime@),
{
    if starts_with_str(declared_mime, "video/") {
        return declared_mime.to_string();
    }
    let (t, full) = guess_mime(path);
    if str_eq(t.as_str(), "video") {
        return full;
    }
    let raw = match path_extension(path) {
        Some(e) => e,
        None => String::new(),
    };
    let l = to_ascii_lowercase(raw.as_str());
    let e = l.as_str();
    if str_eq(e, "mp4") || str_eq(e, "m4v") {
        String::from_str("video/mp4")
    } else if str_eq(e, "mov") || str_eq(e, "qt") {
        String::from_str("video/quicktime")
    } else if str_eq(e, "webm") {
        String::from_str("video/webm")
    } else if str_eq(e, "mkv") {
        String::from_str("video/x-matroska")
    } else if str_eq(e, "avi") {
        String::from_str("video/x-msvideo")
    } else if str_eq(e, "wmv") {
        String::from_str("video/x-ms-wmv")
    } else if str_eq(e, "flv") {
        String::from_str("video/x-flv")
    } else if str_eq(e, "3gp") {
        String::from_str("video/3gpp")
    } else if str_eq(e, "3g2") {
        String::from_str("video/3gpp2")
    } else if str_eq(e, "ts") || str_eq(e, "mts") || str_eq(e, "m2ts") {
        String::from_str("video/mp2t")
    } else {
        String::from_str("video/mp4")
    }
}

/// Largest video sent inline (220 MiB): base64 grows it by a third, and the server takes
/// request bodies up to 300 MB.
pub const MAX_INLINE_VIDEO_BYTES: u64 = 230686720;

/// Refuses a video too large to send inline.
pub fn check_inline_video_size(len: u64) -> (r: Result<(), String>)
    ensures
        r is Ok <==> len <= MAX_INLINE_VIDEO_BYTES,
        r is Err ==> r->Err_0@ == "Video is too large for inline VCP multimodal payload: "@ + decimal(
            len as nat,
        ) + " bytes > "@ + decimal(MAX_INLINE_VIDEO_BYTES as nat) + " bytes"@,
{
    if len > MAX_INLINE_VIDEO_BYTES {
        let mut s = String::from_str("Video is too large for inline VCP multimodal payload: ");
        push_decimal(&mut s, len);
        append_str(&mut s, " bytes > ");
        push_decimal(&mut s, MAX_INLINE_VIDEO_BYTES);
        append_str(&mut s, " bytes");
        Err(s)
    } else {
        Ok(())
    }
}

/// A video as a data URL of its type.
pub fn video_data_url(mime: &str, bytes: &[u8]) -> (r: String)
    ensures
        r@ == "data:"@ + mime@ + ";base64,"@ + base64_spec(bytes@),
{
    let mut s = String::from_str("data:");
    append_str(&mut s, mime);
    append_str(&mut s, ";base64,");
    let b = base64_encode(bytes);
    append_str(&mut s, b.as_str());
    s
}

// ------------------------------------------------------------------ image conversion

/// Why an image could not be decoded: its format was not recognised, or decoding failed.
pub enum ImageDecodeError {
    Format(String),
    Decode(String),
}

/// The width and height the header of an image gives, read as `image_rgba` reads it;
/// `None` when the format is not recognised or the header cannot be read.
pub uninterp spec fn image_dimensions(bytes: Seq<u8>, file_name: Seq<char>) -> Option<(u32, u32)>;

/// What the `image` crate decodes an image into, as width, height and RGBA pixels; `None`
/// when it cannot. The format comes from the bytes, or else from the file name's extension.
pub uninterp spec fn image_rgba(bytes: Seq<u8>, file_name: Seq<char>) -> Option<(u32, u32, Seq<u8>)>;

/// What the `image` crate decodes an image into after `resize(max_side, max_side,
/// Lanczos3)` in its own pixel format (scaled to fit a `max_side` square, its aspect ratio
/// kept), as width, height and RGBA pixels; `None` when it cannot decode it.
pub uninterp spec fn image_fitted(bytes: Seq<u8>, file_name: Seq<char>, max_side: u32) -> Option<
    (u32, u32, Seq<u8>),
>;

/// `image::ImageReader::new(Cursor::new(bytes))`, its format set from the file name's
/// extension when `ImageFormat::from_path` knows it (as `ImageReader::open` does), then
/// `with_guessed_format()` and `into_dimensions()`.
#[verifier::external_body]
fn read_image_dimensions(bytes: &[u8], file_name: &str) -> (r: Result<(u32, u32), ImageDecodeError>)
    ensures
        r is Ok <==> image_dimensions(bytes@, file_name@) is Some,
        r matches Ok(d) ==> image_dimensions(bytes@, file_name@) == Some(d),
{
    let mut reader = image::ImageReader::new(std::io::Cursor::new(bytes));
    if let Ok(format) = image::ImageFormat::from_path(file_name) {
        reader.set_format(format);
    }
    let reader = reader.with_guessed_format().map_err(|e| ImageDecodeError::Format(e.to_string()))?;
    reader.into_dimensions().map_err(|e| ImageDecodeError::Decode(e.to_string()))
}

/// The reader of `read_image_dimensions`, then `decode()` and `to_rgba8()`. The pixels are
/// the named value, four bytes for each pixel.
#[verifier::external_body]
fn decode_image_rgba(bytes: &[u8], file_name: &str) -> (r: Result<(u32, u32, Vec<u8>), ImageDecodeError>)
    ensures
        r is Ok <==> image_rgba(bytes@, file_name@) is Some,
        r matches Ok(t) ==> image_rgba(bytes@, file_name@) == Some((t.0, t.1, t.2@)) && t.2@.len()
            == 4 * t.0 * t.1,
{
    let mut reader = image::ImageReader::new(std::io::Cursor::new(bytes));
    if let Ok(format) = image::ImageFormat::from_path(file_name) {
        reader.set_format(format);
    }
    let reader = reader.with_guessed_format().map_err(|e| ImageDecodeError::Format(e.to_string()))?;
    let rgba = reader.decode().map_err(|e| ImageDecodeError::Decode(e.to_string()))?.to_rgba8();
    Ok((rgba.width(), rgba.height(), rgba.into_raw()))
}

/// The reader of `read_image_dimensions`, then `decode()`, `resize(max_side, max_side,
/// FilterType::Lanczos3)` on the decoded image and `to_rgba8()`. The pixels are the named
/// value, four bytes for each pixel.
#[verifier::external_body]
fn decode_fitted_rgba(bytes: &[u8], file_name: &str, max_side: u32) -> (r: Result<
    (u32, u32, Vec<u8>),
    ImageDecodeError,
>)
    ensures
        r is Ok <==> image_fitted(bytes@, file_name@, max_side) is Some,
        r matches Ok(t) ==> image_fitted(bytes@, file_name@, max_side) == Some((t.0, t.1, t.2@))
            && t.2@.len() == 4 * t.0 * t.1,
{
    let mut reader = image::ImageReader::new(std::io::Cursor::new(bytes));
    if let Ok(format) = image::ImageFormat::from_path(file_name) {
        reader.set_format(format);
    }
    let reader = reader.with_guessed_format().map_err(|e| ImageDecodeError::Format(e.to_string()))?;
    let image = reader.decode().map_err(|e| ImageDecodeError::Decode(e.to_string()))?;
    let rgba = image.resize(max_side, max_side, image::imageops::FilterType::Lanczos3).to_rgba8();
    Ok((rgba.width(), rgba.height(), rgba.into_raw()))
}

/// What `JpegEncoder::new_with_quality(.., quality)` writes for RGB pixels; `None` when it
/// refuses them.
pub uninterp spec fn jpeg_encoded(width: u32, height: u32, rgb: Seq<u8>, quality: u8) -> Option<
    Seq<u8>,
>;

/// `image::codecs::jpeg::JpegEncoder::new_with_quality(.., quality).encode(rgb, width,
/// height, Rgb8)`, collecting the bytes written.
#[verifier::external_body]
fn encode_jpeg(width: u32, height: u32, rgb: &[u8], quality: u8) -> (r: Result<Vec<u8>, String>)
    requires
        rgb@.len() == 3 * width * height,
    ensures
        r is Ok <==> jpeg_encoded(width, height, rgb@, quality) is Some,
        r matches Ok(b) ==> jpeg_encoded(width, height, rgb@, quality) == Some(b@),
{
    let mut out = Vec::new();
    image::codecs::jpeg::JpegEncoder::new_with_quality(&mut out, quality)
        .encode(rgb, width, height, image::ExtendedColorType::Rgb8)
        .map_err(|e| e.to_string())?;
    Ok(out)
}

/// The JPEG quality images are sent at.
pub const JPEG_QUALITY: u8 = 85;

/// The pixels an image is sent with: decoded, and scaled in its own pixel format to fit
/// `MAX_IMAGE_SIDE` when its header gives a larger side; `None` when it cannot be read.
pub open spec fn sent_pixels(bytes: Seq<u8>, file_name: Seq<char>) -> Option<(u32, u32, Seq<u8>)> {
    match image_dimensions(bytes, file_name) {
        None => None,
        Some((w, h)) => if w > MAX_IMAGE_SIDE || h > MAX_IMAGE_SIDE {
            image_fitted(bytes, file_name, MAX_IMAGE_SIDE)
        } else {
            image_rgba(bytes, file_name)
        },
    }
}

/// The error for an image that could not be read, by stage.
fn decode_error(e: ImageDecodeError) -> (r: String)
    ensures
        starts_with(r@, "Failed to detect image format: "@) || starts_with(
            r@,
            "Failed to decode image: "@,
        ),
{
    match e {
        ImageDecodeError::Format(e) => concat_prefix("Failed to detect image format: ", e.as_str()),
        ImageDecodeError::Decode(e) => concat_prefix("Failed to decode image: ", e.as_str()),
    }
}

/// Converts the bytes of an image file to the JPEG that is sent: decoded (its format read
/// from the bytes, or else from the file name's extension), scaled to fit 1120 pixels when
/// larger, composited over white and encoded at quality 85. Decoding and encoding failures
/// are reported with their stage.
pub fn convert_image_bytes(bytes: &[u8], file_name: &str) -> (r: Result<Vec<u8>, String>)
    ensures
        match sent_pixels(bytes@, file_name@) {
            None => r matches Err(e) && (starts_with(e@, "Failed to detect image format: "@)
                || starts_with(e@, "Failed to decode image: "@)),
            Some(s) => match jpeg_encoded(s.0, s.1, flattened(s.2), JPEG_QUALITY) {
                Some(jpeg) => r matches Ok(b) && b@ == jpeg,
                None => r matches Err(e) && starts_with(e@, "Failed to encode JPEG: "@),
            },
        },
{
    let (w, h) = match read_image_dimensions(bytes, file_name) {
        Ok(d) => d,
        Err(e) => {
            return Err(decode_error(e));
        },
    };
    let decoded = if needs_resize(w, h) {
        decode_fitted_rgba(bytes, file_name, MAX_IMAGE_SIDE)
    } else {
        decode_image_rgba(bytes, file_name)
    };
    let (w2, h2, px2) = match decoded {
        Ok(t) => t,
        Err(e) => {
            return Err(decode_error(e));
        },
    };
    proof {
        let m: int = w2 * h2;
        assert(4 * w2 * h2 == 4 * m && 3 * w2 * h2 == 3 * m) by (nonlinear_arith)
            requires
                m == w2 * h2,
        ;
        assert(px2@.len() % 4 == 0 && px2@.len() / 4 * 3 == 3 * m);
    }
    let rgb = flatten_rgba_over_white(px2.as_slice());
    proof {
        lemma_flattened(px2@, rgb@);
    }
    match encode_jpeg(w2, h2, rgb.as_slice(), JPEG_QUALITY) {
        Ok(b) => Ok(b),
        Err(e) => Err(concat_prefix("Failed to encode JPEG: ", e.as_str())),
    }
}

fn concat_prefix(prefix: &str, detail: &str) -> (r: String)
    ensures
        r@ == prefix@ + detail@,
        starts_with(r@, prefix@),
{
    let mut s = prefix.to_string();
    append_str(&mut s, detail);
    assert(starts_with(s@, prefix@)) by {
        assert(s@.subrange(0, prefix@.len() as int) =~= prefix@);
    }
    s
}

} // verus!
