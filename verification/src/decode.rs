//! What an image file holds: the format its bytes announce (else the one its
//! extension names), whether a WebP is animated, its decoded size, and the
//! PNG that a WebP page is stored as.
use crate::picture::{extension, extension_bounds, is_page, ImageKind, Picture, PictureError};
use crate::text::{chars_of, extend_str, string_of};
use image::{ImageFormat, ImageReader};
use std::io::Cursor;
use vstd::prelude::*;

verus! {

/// `image::guess_format(bytes)`: the format that the leading bytes announce.
pub uninterp spec fn content_kind(bytes: Seq<u8>) -> Option<ImageKind>;

/// `WebPDecoder::new(bytes)` followed by `has_animation()`, or the
/// decoder's message when the WebP header cannot be read.
pub uninterp spec fn webp_animated(bytes: Seq<u8>) -> Result<bool, Seq<char>>;

/// The width and height of `bytes` decoded as `kind` (an `Other` kind is
/// decoded as the format the bytes announce), or the decoder's message.
pub uninterp spec fn decoded_size(bytes: Seq<u8>, kind: ImageKind) -> Result<(u32, u32), Seq<char>>;

/// The PNG file that `bytes` (decoded as the format they announce) is
/// written as, or the message of the step that failed.
pub uninterp spec fn png_of(bytes: Seq<u8>) -> Result<Seq<u8>, Seq<char>>;

/// `s` with its ASCII capitals made lower case.
pub open spec fn ascii_lower(s: Seq<char>) -> Seq<char> {
    Seq::new(
        s.len(),
        |i: int|
            if 'A' <= s[i] <= 'Z' {
                ((s[i] as int) + 32) as char
            } else {
                s[i]
            },
    )
}

/// `ImageFormat::from_extension`: the format an extension names, whatever
/// the case of its ASCII letters.
pub open spec fn extension_kind(ext: Seq<char>) -> Option<ImageKind> {
    let e = ascii_lower(ext);
    if e == "jpg"@ || e == "jpeg"@ || e == "jfif"@ {
        Some(ImageKind::Jpeg)
    } else if e == "png"@ || e == "apng"@ {
        Some(ImageKind::Png)
    } else if e == "webp"@ {
        Some(ImageKind::WebP)
    } else if e == "avif"@ || e == "gif"@ || e == "tif"@ || e == "tiff"@ || e == "tga"@ || e
        == "dds"@ || e == "bmp"@ || e == "ico"@ || e == "hdr"@ || e == "exr"@ || e == "pbm"@ || e
        == "pam"@ || e == "ppm"@ || e == "pgm"@ || e == "pnm"@ || e == "ff"@ || e == "qoi"@ {
        Some(ImageKind::Other)
    } else {
        None
    }
}

/// The format an image file is read as: the one its bytes announce, else
/// the one its (non-empty) extension names.
pub open spec fn file_kind(path: Seq<char>, bytes: Seq<u8>) -> Option<ImageKind> {
    match content_kind(bytes) {
        Some(k) => Some(k),
        None => match extension(path) {
            Some(e) => if e.len() > 0 {
                extension_kind(e)
            } else {
                None
            },
            None => None,
        },
    }
}

/// Why an image file cannot become a page.
#[derive(Debug)]
pub enum DecodeError {
    /// Neither the bytes nor the extension name a format.
    UnknownFormat,
    /// The decoder refused the image, with its message.
    Damaged(String),
    /// An animated WebP.
    AnimatedWebP,
    /// Decoded, but neither JPEG, PNG nor WebP.
    UnsupportedFormat,
    /// The PNG form of the page could not be written, with the message.
    Encoding(String),
}

/// A [`DecodeError`] with its messages as character sequences.
pub enum DecodeFault {
    UnknownFormat,
    Damaged(Seq<char>),
    AnimatedWebP,
    UnsupportedFormat,
    Encoding(Seq<char>),
}

/// The [`DecodeFault`] that `e` stands for.
pub open spec fn fault(e: DecodeError) -> DecodeFault {
    match e {
        DecodeError::UnknownFormat => DecodeFault::UnknownFormat,
        DecodeError::Damaged(m) => DecodeFault::Damaged(m@),
        DecodeError::AnimatedWebP => DecodeFault::AnimatedWebP,
        DecodeError::UnsupportedFormat => DecodeFault::UnsupportedFormat,
        DecodeError::Encoding(m) => DecodeFault::Encoding(m@),
    }
}

/// A result with its error taken as a [`DecodeFault`].
pub open spec fn outcome<T>(r: Result<T, DecodeError>) -> Result<T, DecodeFault> {
    match r {
        Ok(v) => Ok(v),
        Err(e) => Err(fault(e)),
    }
}

/// A result with its message taken as characters.
pub open spec fn text_result<T>(r: Result<T, String>) -> Result<T, Seq<char>> {
    match r {
        Ok(v) => Ok(v),
        Err(m) => Err(m@),
    }
}

impl DecodeError {
    /// The message shown to the user about the image at `path`.
    pub fn message(&self, path: &str) -> (r: String)
        ensures
            match self {
                DecodeError::UnknownFormat => r@ == "无法识别图片格式："@ + path@,
                DecodeError::Damaged(m) => r@ == "图片无法解码 "@ + path@ + ": "@ + m@,
                DecodeError::AnimatedWebP => r@ == "不支持动态 WebP："@ + path@ + "；请先导出为静态图片"@,
                DecodeError::UnsupportedFormat => r@ == "不支持的图片格式："@ + path@,
                DecodeError::Encoding(m) => r@ == m@,
            },
    {
        let mut v: Vec<char> = Vec::new();
        match self {
            DecodeError::UnknownFormat => {
                extend_str(&mut v, "无法识别图片格式：");
                extend_str(&mut v, path);
            },
            DecodeError::Damaged(m) => {
                extend_str(&mut v, "图片无法解码 ");
                extend_str(&mut v, path);
                extend_str(&mut v, ": ");
                extend_str(&mut v, m.as_str());
            },
            DecodeError::AnimatedWebP => {
                extend_str(&mut v, "不支持动态 WebP：");
                extend_str(&mut v, path);
                extend_str(&mut v, "；请先导出为静态图片");
            },
            DecodeError::UnsupportedFormat => {
                extend_str(&mut v, "不支持的图片格式：");
                extend_str(&mut v, path);
            },
            DecodeError::Encoding(m) => {
                extend_str(&mut v, m.as_str());
            },
        }
        string_of(v.as_slice())
    }
}

/// The format `image::guess_format` finds at the start of `bytes`; the
/// contract names the result and claims it depends on the bytes alone.
#[verifier::external_body]
fn guess_kind(bytes: &[u8]) -> (r: Option<ImageKind>)
    ensures
        r == content_kind(bytes@),
{
    match image::guess_format(bytes) {
        Ok(ImageFormat::Jpeg) => Some(ImageKind::Jpeg),
        Ok(ImageFormat::Png) => Some(ImageKind::Png),
        Ok(ImageFormat::WebP) => Some(ImageKind::WebP),
        Ok(_) => Some(ImageKind::Other),
        Err(_) => None,
    }
}

/// `ImageFormat::from_extension(ext)`; the contract claims the table of
/// [`extension_kind`], which is the one in the crate's source.
#[verifier::external_body]
fn kind_of_extension(ext: &str) -> (r: Option<ImageKind>)
    ensures
        r == extension_kind(ext@),
{
    match ImageFormat::from_extension(ext) {
        Some(ImageFormat::Jpeg) => Some(ImageKind::Jpeg),
        Some(ImageFormat::Png) => Some(ImageKind::Png),
        Some(ImageFormat::WebP) => Some(ImageKind::WebP),
        Some(_) => Some(ImageKind::Other),
        None => None,
    }
}

/// Reads a WebP header with `WebPDecoder::new` and asks `has_animation`;
/// the contract names the result, a function of the bytes alone.
#[verifier::external_body]
fn webp_animation(bytes: &[u8]) -> (r: Result<bool, String>)
    ensures
        text_result(r) == webp_animated(bytes@),
{
    match image::codecs::webp::WebPDecoder::new(Cursor::new(bytes)) {
        Ok(d) => Ok(d.has_animation()),
        Err(e) => Err(e.to_string()),
    }
}

/// Decodes `bytes` as `kind` with `ImageReader::decode` (an `Other` kind as
/// the format `guess_format` finds) and gives the decoded width and height;
/// the contract names the result, a function of its arguments alone.
#[verifier::external_body]
fn decode_size(bytes: &[u8], kind: ImageKind) -> (r: Result<(u32, u32), String>)
    ensures
        text_result(r) == decoded_size(bytes@, kind),
{
    let format = match kind {
        ImageKind::Jpeg => ImageFormat::Jpeg,
        ImageKind::Png => ImageFormat::Png,
        ImageKind::WebP => ImageFormat::WebP,
        ImageKind::Other => match image::guess_format(bytes) {
            Ok(f) => f,
            Err(e) => return Err(e.to_string()),
        },
    };
    match ImageReader::with_format(Cursor::new(bytes), format).decode() {
        Ok(d) => Ok((d.width(), d.height())),
        Err(e) => Err(e.to_string()),
    }
}

/// Decodes `bytes` with `image::load_from_memory` and writes the image with
/// `PngEncoder`; the contract names the PNG bytes, a function of the input.
#[verifier::external_body]
fn encode_png(bytes: &[u8]) -> (r: Result<Vec<u8>, String>)
    ensures
        match r {
            Ok(png) => png_of(bytes@) == Ok::<Seq<u8>, Seq<char>>(png@),
            Err(m) => png_of(bytes@) == Err::<Seq<u8>, Seq<char>>(m@),
        },
{
    let image = match image::load_from_memory(bytes) {
        Ok(i) => i,
        Err(e) => return Err(e.to_string()),
    };
    let mut png: Vec<u8> = Vec::new();
    match image.write_with_encoder(image::codecs::png::PngEncoder::new(&mut png)) {
        Ok(()) => Ok(png),
        Err(e) => Err(e.to_string()),
    }
}

/// The outcome of reading an image of format `kind` (none when unknown):
/// a WebP whose header cannot be read is damaged and an animated one is
/// refused; otherwise the decoder's answer decides.
pub open spec fn decode_outcome(
    kind: Option<ImageKind>,
    animated: Result<bool, Seq<char>>,
    size: Result<(u32, u32), Seq<char>>,
) -> Result<(ImageKind, u32, u32), DecodeFault> {
    match kind {
        None => Err(DecodeFault::UnknownFormat),
        Some(k) => if k == ImageKind::WebP && animated is Err {
            Err(DecodeFault::Damaged(animated->Err_0))
        } else if k == ImageKind::WebP && animated == Ok::<bool, Seq<char>>(true) {
            Err(DecodeFault::AnimatedWebP)
        } else {
            match size {
                Ok((w, h)) => Ok((k, w, h)),
                Err(m) => Err(DecodeFault::Damaged(m)),
            }
        },
    }
}

/// The verdict on an image of format `kind`, given what the WebP header
/// said (looked at only for a WebP) and what the decoder answered.
pub fn check_decoded(
    kind: Option<ImageKind>,
    animated: Result<bool, String>,
    size: Result<(u32, u32), String>,
) -> (r: Result<(ImageKind, u32, u32), DecodeError>)
    ensures
        outcome(r) == decode_outcome(kind, text_result(animated), text_result(size)),
{
    let k = match kind {
        None => {
            return Err(DecodeError::UnknownFormat);
        },
        Some(k) => k,
    };
    if k == ImageKind::WebP {
        match animated {
            Err(m) => {
                return Err(DecodeError::Damaged(m));
            },
            Ok(true) => {
                return Err(DecodeError::AnimatedWebP);
            },
            Ok(false) => {},
        }
    }
    match size {
        Ok((w, h)) => Ok((k, w, h)),
        Err(m) => Err(DecodeError::Damaged(m)),
    }
}

/// The format the image at `path` with contents `bytes` is read as (see [`file_kind`]).
pub fn image_kind(path: &str, bytes: &[u8]) -> (r: Option<ImageKind>)
    ensures
        r == file_kind(path@, bytes@),
{
    match guess_kind(bytes) {
        Some(k) => Some(k),
        None => {
            let p = chars_of(path);
            match extension_bounds(p.as_slice()) {
                None => None,
                Some((s, e)) => if s < e {
                    let mut t: Vec<char> = Vec::new();
                    crate::text::extend_range(&mut t, p.as_slice(), s, e);
                    let ext = string_of(t.as_slice());
                    kind_of_extension(ext.as_str())
                } else {
                    None
                },
            }
        },
    }
}

/// What the WebP header of an image of format `kind` says: only a WebP is looked at.
pub open spec fn animation_of(kind: Option<ImageKind>, bytes: Seq<u8>) -> Result<bool, Seq<char>> {
    if kind == Some(ImageKind::WebP) {
        webp_animated(bytes)
    } else {
        Ok(false)
    }
}

/// What the decoder answers for an image of format `kind`.
pub open spec fn size_of(kind: Option<ImageKind>, bytes: Seq<u8>) -> Result<(u32, u32), Seq<char>> {
    match kind {
        Some(k) => decoded_size(bytes, k),
        None => Err(Seq::empty()),
    }
}

/// Reads the image at `path` with contents `bytes`: its format, and its
/// decoded width and height; refuses an unknown format, an animated WebP
/// and an image the decoder cannot read.
pub fn decode_picture(path: &str, bytes: &[u8]) -> (r: Result<(ImageKind, u32, u32), DecodeError>)
    ensures
        outcome(r) == decode_outcome(
            file_kind(path@, bytes@),
            animation_of(file_kind(path@, bytes@), bytes@),
            size_of(file_kind(path@, bytes@), bytes@),
        ),
{
    let kind = image_kind(path, bytes);
    let k = match kind {
        None => {
            return Err(DecodeError::UnknownFormat);
        },
        Some(k) => k,
    };
    let animated = if k == ImageKind::WebP {
        webp_animation(bytes)
    } else {
        Ok(false)
    };
    // A WebP header that is unreadable or animated decides without decoding.
    let size = match animated {
        Ok(false) => decode_size(bytes, k),
        _ => Err(String::new()),
    };
    check_decoded(kind, animated, size)
}

/// The page for the image at `path` (`name` relative to the input) with
/// contents `bytes`: it must decode (see [`decode_picture`]) and be a JPEG,
/// PNG or WebP.
pub fn read_picture(path: String, name: String, bytes: &[u8]) -> (r: Result<Picture, DecodeError>)
    ensures
        match decode_outcome(
            file_kind(path@, bytes@),
            animation_of(file_kind(path@, bytes@), bytes@),
            size_of(file_kind(path@, bytes@), bytes@),
        ) {
            Err(f) => r matches Err(e) && fault(e) == f,
            Ok((k, w, h)) => match r {
                Ok(p) => is_page(p, path, name, k, w, h),
                Err(e) => e is UnsupportedFormat && crate::picture::book_format(k) is None,
            },
        },
{
    let (k, w, h) = match decode_picture(path.as_str(), bytes) {
        Err(e) => {
            return Err(e);
        },
        Ok(d) => d,
    };
    match Picture::new(path, name, k, w, h) {
        Ok(p) => Ok(p),
        Err(PictureError::UnsupportedFormat) => Err(DecodeError::UnsupportedFormat),
    }
}

/// The bytes stored in the book for a WebP page at `path` with contents
/// `bytes`: the image must still decode (see [`decode_picture`]), and is
/// written as PNG.
pub fn page_png(path: &str, bytes: &[u8]) -> (r: Result<Vec<u8>, DecodeError>)
    ensures
        match decode_outcome(
            file_kind(path@, bytes@),
            animation_of(file_kind(path@, bytes@), bytes@),
            size_of(file_kind(path@, bytes@), bytes@),
        ) {
            Err(f) => r matches Err(e) && fault(e) == f,
            Ok(_) => match png_of(bytes@) {
                Ok(png) => r matches Ok(v) && v@ == png,
                Err(m) => r matches Err(e) && fault(e) == DecodeFault::Encoding(m),
            },
        },
{
    match decode_picture(path, bytes) {
        Err(e) => {
            return Err(e);
        },
        Ok(_) => {},
    }
    match encode_png(bytes) {
        Ok(png) => Ok(png),
        Err(m) => Err(DecodeError::Encoding(m)),
    }
}

} // verus!
