use bookforge::archive::entry_time;
use bookforge::capture::{capture_time, picture_time};
use bookforge::decode::{check_decoded, decode_picture, image_kind, page_png, read_picture, DecodeError};
use bookforge::epub::escape;
use bookforge::natural::natural_cmp;
use bookforge::picture::{ImageKind, Timestamp};
use std::cmp::Ordering;
use std::io::Cursor;

fn encoded(width: u32, height: u32, format: image::ImageFormat) -> Vec<u8> {
    let image = image::DynamicImage::ImageRgba8(image::RgbaImage::from_pixel(
        width,
        height,
        image::Rgba([10, 200, 30, 128]),
    ));
    let image = if format == image::ImageFormat::Jpeg {
        image::DynamicImage::ImageRgb8(image.to_rgb8())
    } else {
        image
    };
    let mut out = Cursor::new(Vec::new());
    image.write_to(&mut out, format).unwrap();
    out.into_inner()
}

/// A little-endian TIFF holding an EXIF directory with the given ASCII fields.
fn exif_tiff(fields: &[(u16, &str)]) -> Vec<u8> {
    let mut b: Vec<u8> = vec![b'I', b'I', 42, 0, 8, 0, 0, 0];
    let exif_ifd: u32 = 8 + 2 + 12 + 4;
    b.extend(1u16.to_le_bytes());
    b.extend(0x8769u16.to_le_bytes());
    b.extend(4u16.to_le_bytes());
    b.extend(1u32.to_le_bytes());
    b.extend(exif_ifd.to_le_bytes());
    b.extend(0u32.to_le_bytes());
    let data_start = exif_ifd as usize + 2 + 12 * fields.len() + 4;
    let mut data: Vec<u8> = Vec::new();
    b.extend((fields.len() as u16).to_le_bytes());
    for (tag, text) in fields {
        let mut v = text.as_bytes().to_vec();
        v.push(0);
        b.extend(tag.to_le_bytes());
        b.extend(2u16.to_le_bytes());
        b.extend((v.len() as u32).to_le_bytes());
        if v.len() <= 4 {
            v.resize(4, 0);
            b.extend(v);
        } else {
            b.extend(((data_start + data.len()) as u32).to_le_bytes());
            data.extend(v);
        }
    }
    b.extend(0u32.to_le_bytes());
    b.extend(data);
    b
}

const DATE_TIME_ORIGINAL: u16 = 0x9003;
const OFFSET_TIME_ORIGINAL: u16 = 0x9011;
const SUB_SEC_TIME_ORIGINAL: u16 = 0x9291;

#[test]
fn png_and_jpeg_pages_keep_their_format_and_size() {
    let png = encoded(3, 2, image::ImageFormat::Png);
    let p = read_picture("dir/a.png".to_string(), "a.png".to_string(), &png).unwrap();
    assert_eq!((p.width, p.height), (3, 2));
    assert_eq!(p.extension, "png");
    assert_eq!(p.media_type, "image/png");
    assert!(!p.convert_png);
    assert_eq!(p.name, "a.png");

    let jpeg = encoded(5, 7, image::ImageFormat::Jpeg);
    let p = read_picture("b.jpeg".to_string(), "b.jpeg".to_string(), &jpeg).unwrap();
    assert_eq!((p.width, p.height), (5, 7));
    assert_eq!(p.extension, "jpg");
    assert_eq!(p.media_type, "image/jpeg");
}

#[test]
fn content_decides_the_format_before_the_extension() {
    let png = encoded(4, 4, image::ImageFormat::Png);
    assert_eq!(image_kind("photo.jpg", &png), Some(ImageKind::Png));
    assert!(matches!(decode_picture("photo.jpg", &png), Ok((ImageKind::Png, 4, 4))));
    // Unrecognised bytes fall back to the extension, whatever its case.
    assert_eq!(image_kind("photo.JPG", b"not an image"), Some(ImageKind::Jpeg));
    assert_eq!(image_kind("photo.webp", b"xx"), Some(ImageKind::WebP));
    assert_eq!(image_kind("photo.gif", b"xx"), Some(ImageKind::Other));
    assert_eq!(image_kind("photo.txt", b"xx"), None);
    assert_eq!(image_kind("photo.", b"xx"), None);
    assert_eq!(image_kind(".png", b"xx"), None);
}

#[test]
fn unknown_and_damaged_images_are_refused() {
    assert!(matches!(
        decode_picture("notes.txt", b"plain text"),
        Err(DecodeError::UnknownFormat)
    ));
    let e = decode_picture("broken.png", b"plain text").unwrap_err();
    assert!(matches!(e, DecodeError::Damaged(_)));
    assert!(e.message("broken.png").starts_with("图片无法解码 broken.png: "));
    let mut png = encoded(6, 6, image::ImageFormat::Png);
    png.truncate(40);
    assert!(matches!(decode_picture("cut.png", &png), Err(DecodeError::Damaged(_))));
    match read_picture("n.txt".to_string(), "n.txt".to_string(), b"??") {
        Err(e) => assert_eq!(e.message("n.txt"), "无法识别图片格式：n.txt"),
        Ok(_) => panic!("an unknown format was accepted"),
    }
}

#[test]
fn other_formats_are_unsupported_pages() {
    let gif = b"GIF89a\x02\x00\x02\x00\x00\x00\x00;".to_vec();
    assert_eq!(image_kind("a.png", &gif), Some(ImageKind::Other));
    assert!(read_picture("a.png".to_string(), "a.png".to_string(), &gif).is_err());
    assert_eq!(DecodeError::UnsupportedFormat.message("a.gif"), "不支持的图片格式：a.gif");
}

#[test]
fn static_webp_becomes_png() {
    let webp = encoded(3, 5, image::ImageFormat::WebP);
    let p = read_picture("c.webp".to_string(), "c.webp".to_string(), &webp).unwrap();
    assert!(p.convert_png);
    assert_eq!(p.extension, "png");
    assert_eq!((p.width, p.height), (3, 5));
    let png = page_png("c.webp", &webp).unwrap();
    assert!(png.starts_with(b"\x89PNG\r\n\x1a\n"));
    assert_ne!(png, webp);
    let back = image::load_from_memory(&png).unwrap().to_rgba8();
    let orig = image::load_from_memory(&webp).unwrap().to_rgba8();
    assert_eq!(back, orig);
    assert!(matches!(page_png("c.webp", b"RIFF"), Err(_)));
}

#[test]
fn decode_verdicts() {
    assert!(matches!(
        check_decoded(None, Ok(false), Ok((1, 1))),
        Err(DecodeError::UnknownFormat)
    ));
    assert!(matches!(
        check_decoded(Some(ImageKind::WebP), Ok(true), Ok((1, 1))),
        Err(DecodeError::AnimatedWebP)
    ));
    assert!(matches!(
        check_decoded(Some(ImageKind::WebP), Err("bad".to_string()), Ok((1, 1))),
        Err(DecodeError::Damaged(m)) if m == "bad"
    ));
    // Only a WebP is refused for animation.
    assert!(matches!(
        check_decoded(Some(ImageKind::Png), Ok(true), Ok((2, 3))),
        Ok((ImageKind::Png, 2, 3))
    ));
    assert!(matches!(
        check_decoded(Some(ImageKind::Jpeg), Ok(false), Err("eof".to_string())),
        Err(DecodeError::Damaged(m)) if m == "eof"
    ));
    assert_eq!(
        DecodeError::AnimatedWebP.message("x.webp"),
        "不支持动态 WebP：x.webp；请先导出为静态图片"
    );
    assert_eq!(DecodeError::Encoding("oops".to_string()).message("x.webp"), "oops");
}

#[test]
fn exif_time_with_offset_and_fraction() {
    let modified = Timestamp { secs: 5, nanos: 6 };
    let tiff = exif_tiff(&[
        (DATE_TIME_ORIGINAL, "2021:01:01 08:00:00"),
        (OFFSET_TIME_ORIGINAL, "+08:00"),
        (SUB_SEC_TIME_ORIGINAL, "25"),
    ]);
    assert_eq!(
        picture_time(&tiff, modified),
        (Timestamp { secs: 1_609_459_200, nanos: 250_000_000 }, true)
    );
    let tiff = exif_tiff(&[
        (DATE_TIME_ORIGINAL, "2021:01:01 08:00:00"),
        (OFFSET_TIME_ORIGINAL, "-01:30"),
    ]);
    assert_eq!(
        picture_time(&tiff, modified),
        (Timestamp { secs: 1_609_488_000 + 5_400, nanos: 0 }, true)
    );
}

#[test]
fn exif_time_falls_back_to_modification_time() {
    let modified = Timestamp { secs: 1_700_000_000, nanos: 42 };
    // No EXIF data at all.
    let png = encoded(2, 2, image::ImageFormat::Png);
    assert_eq!(picture_time(&png, modified), (modified, false));
    assert_eq!(picture_time(b"", modified), (modified, false));
    // EXIF without DateTimeOriginal.
    let tiff = exif_tiff(&[(OFFSET_TIME_ORIGINAL, "+08:00")]);
    assert_eq!(picture_time(&tiff, modified), (modified, false));
    // An unreadable date, offset or fraction.
    let tiff = exif_tiff(&[(DATE_TIME_ORIGINAL, "yesterday")]);
    assert_eq!(picture_time(&tiff, modified), (modified, false));
    let tiff = exif_tiff(&[
        (DATE_TIME_ORIGINAL, "2021:01:01 08:00:00"),
        (OFFSET_TIME_ORIGINAL, "Z8"),
    ]);
    assert_eq!(picture_time(&tiff, modified), (modified, false));
    let tiff = exif_tiff(&[
        (DATE_TIME_ORIGINAL, "2021:01:01 08:00:00"),
        (OFFSET_TIME_ORIGINAL, "+00:00"),
        (SUB_SEC_TIME_ORIGINAL, "1a"),
    ]);
    assert_eq!(picture_time(&tiff, modified), (modified, false));
}

#[test]
fn exif_time_without_offset_is_within_a_day() {
    let modified = Timestamp { secs: 1, nanos: 0 };
    let tiff = exif_tiff(&[(DATE_TIME_ORIGINAL, "2021:06:01 12:00:00")]);
    let (t, exif) = picture_time(&tiff, modified);
    if exif {
        assert!((t.secs - 1_622_548_800).abs() < 86_400);
        assert_eq!(t.nanos, 0);
    } else {
        assert_eq!(t, modified);
    }
    let local = capture_time("2021:06:01 12:00:00", None, Some("5")).unwrap();
    assert!((local.secs - 1_622_548_800).abs() < 86_400);
    assert_eq!(local.nanos, 500_000_000);
}

#[test]
fn archive_entry_times() {
    let fallback = Timestamp { secs: 99, nanos: 7 };
    assert_eq!(entry_time(None, fallback), fallback);
    assert_eq!(entry_time(Some((2021, 2, 29, 0, 0, 0)), fallback), fallback);
    assert_eq!(entry_time(Some((2021, 13, 1, 0, 0, 0)), fallback), fallback);
    assert_eq!(entry_time(Some((2021, 1, 1, 24, 0, 0)), fallback), fallback);
    let t = entry_time(Some((2020, 2, 29, 23, 59, 58)), fallback);
    if t != fallback {
        assert!((t.secs - 1_583_020_798).abs() < 86_400);
        assert_eq!(t.nanos, 0);
    }
    let t = entry_time(Some((1980, 1, 1, 0, 0, 0)), fallback);
    assert!(t == fallback || (t.secs - 315_532_800).abs() < 86_400);
}

#[test]
fn escaping_reads_back_and_leaves_plain_text() {
    for s in ["a<b & 'c' \"d\" > e", "&amp;", "&&lt;", "'\"'", ""] {
        let e = escape(s);
        assert!(!e.contains(['<', '>', '"', '\'']));
        let back = e
            .replace("&apos;", "'")
            .replace("&quot;", "\"")
            .replace("&gt;", ">")
            .replace("&lt;", "<")
            .replace("&amp;", "&");
        assert_eq!(back, s);
    }
    assert_eq!(escape("plain text 中文 123"), "plain text 中文 123");
    assert_eq!(escape("&amp;"), "&amp;amp;");
}

#[test]
fn shared_prefixes_with_digits_compare_by_what_follows() {
    assert_eq!(natural_cmp("v2_p7.png", "v2_p10.png"), Ordering::Less);
    assert_eq!(natural_cmp("v2_p07a", "v2_p7b"), Ordering::Less);
    assert_eq!(natural_cmp("a07x", "a7y"), Ordering::Less);
    assert_eq!(natural_cmp("a7y", "a07x"), Ordering::Greater);
    assert_eq!(natural_cmp("12-3", "12-03"), Ordering::Equal);
}

fn riff_chunk(kind: &[u8; 4], data: &[u8]) -> Vec<u8> {
    let mut bytes = kind.to_vec();
    bytes.extend_from_slice(&(data.len() as u32).to_le_bytes());
    bytes.extend_from_slice(data);
    if data.len() % 2 == 1 {
        bytes.push(0);
    }
    bytes
}

/// A two-frame animated WebP whose frames are a static 2×1 WebP's image data.
fn animated_webp(still: &[u8]) -> Vec<u8> {
    let mut body = b"WEBP".to_vec();
    body.extend(riff_chunk(b"VP8X", &[0x12, 0, 0, 0, 1, 0, 0, 0, 0, 0]));
    body.extend(riff_chunk(b"ANIM", &[0; 6]));
    let mut frame = vec![0u8; 16];
    frame[6] = 1;
    frame[12] = 100;
    frame[15] = 2;
    frame.extend_from_slice(&still[12..]);
    body.extend(riff_chunk(b"ANMF", &frame));
    body.extend(riff_chunk(b"ANMF", &frame));
    let mut riff = b"RIFF".to_vec();
    riff.extend_from_slice(&(body.len() as u32).to_le_bytes());
    riff.extend(body);
    riff
}

#[test]
fn animated_webp_is_refused_whatever_its_name() {
    let original = image::RgbaImage::from_raw(2, 1, vec![255, 0, 0, 255, 0, 255, 0, 128]).unwrap();
    let mut still = Cursor::new(Vec::new());
    image::DynamicImage::ImageRgba8(original.clone())
        .write_to(&mut still, image::ImageFormat::WebP)
        .unwrap();
    let still = still.into_inner();
    // The still page keeps its pixels and transparency through PNG.
    let png = page_png("1.WeBp", &still).unwrap();
    assert_eq!(
        image::load_from_memory_with_format(&png, image::ImageFormat::Png).unwrap().to_rgba8(),
        original
    );
    let riff = animated_webp(&still);
    for name in ["4.webp", "4.png"] {
        let e = decode_picture(name, &riff).unwrap_err();
        assert!(matches!(e, DecodeError::AnimatedWebP));
        assert!(e.message(name).contains("不支持动态 WebP"));
        assert!(e.message(name).contains(name));
    }
    assert!(matches!(page_png("4.webp", &riff), Err(DecodeError::AnimatedWebP)));
    assert!(matches!(
        decode_picture("x.webp", b"broken WebP"),
        Err(DecodeError::Damaged(_))
    ));
}
