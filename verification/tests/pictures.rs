use avatar_cache::error::Error;
use avatar_cache::picture::{
    classify, decode, decode_declared, decode_with, normalize, select_format, thumbnail, ImageKind,
    MimeType, Picture, THUMBNAIL_SIDE,
};
use std::io::Cursor;

fn checkerboard(width: u32, height: u32) -> image::RgbaImage {
    image::RgbaImage::from_fn(width, height, |x, y| {
        if (x < width / 2) == (y < height / 2) {
            image::Rgba([200, 30, 30, 255])
        } else {
            image::Rgba([30, 30, 200, 255])
        }
    })
}

fn encoded(picture: &image::RgbaImage, format: image::ImageFormat) -> Vec<u8> {
    let mut out = Cursor::new(Vec::new());
    if format == image::ImageFormat::Jpeg {
        image::DynamicImage::ImageRgba8(picture.clone())
            .into_rgb8()
            .write_to(&mut out, format)
            .unwrap();
    } else {
        picture.write_to(&mut out, format).unwrap();
    }
    out.into_inner()
}

#[test]
fn the_allow_list_has_five_formats() {
    assert_eq!(ImageKind::from_mime("image", "bmp"), Some(ImageKind::Bmp));
    assert_eq!(ImageKind::from_mime("image", "gif"), Some(ImageKind::Gif));
    assert_eq!(ImageKind::from_mime("image", "jpeg"), Some(ImageKind::Jpeg));
    assert_eq!(ImageKind::from_mime("image", "png"), Some(ImageKind::Png));
    assert_eq!(ImageKind::from_mime("image", "webp"), Some(ImageKind::WebP));
}

#[test]
fn nothing_else_is_on_the_allow_list() {
    assert_eq!(ImageKind::from_mime("text", "plain"), None);
    assert_eq!(ImageKind::from_mime("text", "png"), None);
    assert_eq!(ImageKind::from_mime("image", "svg"), None);
    assert_eq!(ImageKind::from_mime("image", "jpg"), None);
    assert_eq!(ImageKind::from_mime("image", ""), None);
    assert_eq!(ImageKind::from_mime("IMAGE", "PNG"), None);
    assert_eq!(ImageKind::from_mime("application", "octet-stream"), None);
}

#[test]
fn a_picture_needs_four_bytes_for_each_pixel() {
    let picture = Picture::from_rgba(2, 3, vec![9; 24]).unwrap();
    assert_eq!(picture.width(), 2);
    assert_eq!(picture.height(), 3);
    assert_eq!(picture.rgba(), &vec![9u8; 24]);
    assert!(Picture::from_rgba(2, 3, vec![9; 23]).is_none());
    assert!(Picture::from_rgba(2, 3, vec![9; 25]).is_none());
    assert!(Picture::from_rgba(0, 5, Vec::new()).is_some());
    assert!(Picture::from_rgba(u32::MAX, u32::MAX, Vec::new()).is_none());
}

#[test]
fn a_large_png_becomes_a_small_png() {
    let body = encoded(&checkerboard(100, 100), image::ImageFormat::Png);
    let small = normalize(&body, Some("image/png")).unwrap();
    assert_eq!(image::guess_format(&small).unwrap(), image::ImageFormat::Png);
    let back = image::load_from_memory_with_format(&small, image::ImageFormat::Png).unwrap();
    assert_eq!(back.width(), 16);
    assert_eq!(back.height(), 16);
    assert_eq!(THUMBNAIL_SIDE, 16);
}

#[test]
fn scaling_ignores_proportions() {
    let body = encoded(&checkerboard(64, 20), image::ImageFormat::Png);
    let small = normalize(&body, None).unwrap();
    let back = image::load_from_memory(&small).unwrap();
    assert_eq!((back.width(), back.height()), (16, 16));
}

#[test]
fn a_declared_type_off_the_list_is_refused_without_a_look_at_the_bytes() {
    let body = encoded(&checkerboard(100, 100), image::ImageFormat::Png);
    match normalize(&body, Some("text/plain")) {
        Err(Error::InvalidMime(text)) => assert_eq!(text, "text/plain"),
        other => panic!("unexpected result: {:?}", other),
    }
    match decode(&body, Some("Text/Plain; charset=utf-8")) {
        Err(Error::InvalidMime(text)) => assert_eq!(text, "text/plain; charset=utf-8"),
        other => panic!("unexpected result: {:?}", other),
    }
}

#[test]
fn a_declared_type_decides_the_format() {
    let png = encoded(&checkerboard(8, 8), image::ImageFormat::Png);
    assert!(matches!(decode(&png, Some("image/jpeg")), Err(Error::Image(_))));
    assert!(matches!(decode(&png, Some("image/gif")), Err(Error::Image(_))));
    assert!(decode(&png, Some("image/png")).is_ok());
    assert!(decode(&png, Some("IMAGE/PNG")).is_ok());
    assert!(decode(&png, Some("image/png; q=1")).is_ok());
}

#[test]
fn a_content_type_that_is_no_mime_type_is_an_error() {
    let png = encoded(&checkerboard(8, 8), image::ImageFormat::Png);
    assert!(matches!(decode(&png, Some("png")), Err(Error::MimeFromStr(_))));
    assert!(matches!(decode(&png, Some("")), Err(Error::MimeFromStr(_))));
    assert!(matches!(normalize(&png, Some("/png")), Err(Error::MimeFromStr(_))));
    assert!(matches!(normalize(&png, Some("image png/x")), Err(Error::MimeFromStr(_))));
}

#[test]
fn without_a_declared_type_the_bytes_decide() {
    let source = checkerboard(6, 4);
    for format in [
        image::ImageFormat::Png,
        image::ImageFormat::Bmp,
        image::ImageFormat::Gif,
        image::ImageFormat::WebP,
    ] {
        let picture = decode(&encoded(&source, format), None).unwrap();
        assert_eq!((picture.width(), picture.height()), (6, 4));
        assert_eq!(picture.rgba(), source.as_raw());
    }
    let jpeg = decode(&encoded(&source, image::ImageFormat::Jpeg), None).unwrap();
    assert_eq!((jpeg.width(), jpeg.height()), (6, 4));
    assert_eq!(jpeg.rgba().len(), 96);
}

#[test]
fn each_declared_format_is_decoded() {
    let source = checkerboard(6, 4);
    for (format, declared) in [
        (image::ImageFormat::Png, "image/png"),
        (image::ImageFormat::Bmp, "image/bmp"),
        (image::ImageFormat::Gif, "image/gif"),
        (image::ImageFormat::WebP, "image/webp"),
    ] {
        let picture = decode(&encoded(&source, format), Some(declared)).unwrap();
        assert_eq!((picture.width(), picture.height()), (6, 4));
        assert_eq!(picture.rgba(), source.as_raw());
    }
    assert!(decode(&encoded(&source, image::ImageFormat::Jpeg), Some("image/jpeg")).is_ok());
}

#[test]
fn bytes_that_are_no_image_are_an_error() {
    assert!(matches!(decode(b"not an image", None), Err(Error::Image(_))));
    assert!(matches!(decode(b"", None), Err(Error::Image(_))));
    assert!(matches!(decode(b"not an image", Some("image/png")), Err(Error::Image(_))));
    assert!(matches!(normalize(b"not an image", None), Err(Error::Image(_))));
}

#[test]
fn a_thumbnail_takes_the_nearest_pixel() {
    let red = [255u8, 0, 0, 255];
    let green = [0u8, 255, 0, 255];
    let blue = [0u8, 0, 255, 255];
    let clear = [0u8, 0, 0, 0];
    let mut rgba = Vec::new();
    for pixel in [red, green, blue, clear] {
        rgba.extend_from_slice(&pixel);
    }
    let picture = Picture::from_rgba(2, 2, rgba).unwrap();
    let small = thumbnail(&picture).unwrap();
    let back = image::load_from_memory(&small).unwrap().into_rgba8();
    assert_eq!((back.width(), back.height()), (16, 16));
    for y in 0..16 {
        for x in 0..16 {
            let expected = match (x < 8, y < 8) {
                (true, true) => red,
                (false, true) => green,
                (true, false) => blue,
                (false, false) => clear,
            };
            assert_eq!(back.get_pixel(x, y).0, expected);
        }
    }
}

#[test]
fn a_thumbnail_of_a_thumbnail_sized_picture_keeps_every_pixel() {
    let source = checkerboard(16, 16);
    let picture = Picture::from_rgba(16, 16, source.as_raw().clone()).unwrap();
    let small = thumbnail(&picture).unwrap();
    let back = image::load_from_memory(&small).unwrap().into_rgba8();
    assert_eq!(back.as_raw(), source.as_raw());
}

#[test]
fn the_same_picture_gives_the_same_thumbnail() {
    let body = encoded(&checkerboard(40, 40), image::ImageFormat::Png);
    assert_eq!(normalize(&body, None).unwrap(), normalize(&body, Some("image/png")).unwrap());
}

#[test]
fn failures_are_put_into_words() {
    let url = String::from("https://a.example/x.png");
    let missing = Error::Status { url: url.clone(), code: 404 };
    assert_eq!(missing.message(), "HTTP status 404 for url https://a.example/x.png");
    assert_eq!(missing.url(), Some(url.clone()));
    let late = Error::Transport { url: url.clone(), reason: String::from("timed out") };
    assert_eq!(late.message(), "timed out for url https://a.example/x.png");
    assert_eq!(late.url(), Some(url.clone()));
    let odd = Error::Json { url: url.clone(), reason: String::from("missing field `url`") };
    assert_eq!(odd.message(), "missing field `url` for url https://a.example/x.png");
    assert_eq!(odd.url(), Some(url));
    assert_eq!(Error::Header.url(), None);
    assert_eq!(Error::UnsupportedFormat.message(), "the image format is not supported");
    assert_eq!(Error::Header.message(), "content type is not text");
    assert_eq!(
        Error::InvalidMime(String::from("text/plain")).message(),
        "text/plain is not a known image MIME type"
    );
    let undecodable = normalize(b"not an image", Some("image/png")).unwrap_err();
    assert!(!undecodable.message().is_empty());
    let malformed = normalize(b"", Some("no slash")).unwrap_err();
    assert!(!malformed.message().is_empty());
    let png = encoded(&checkerboard(4, 4), image::ImageFormat::Png);
    assert_eq!(
        normalize(&png, Some("text/plain")).unwrap_err().message(),
        "text/plain is not a known image MIME type"
    );
}

fn mime(text: &str, type_: &str, subtype: &str) -> MimeType {
    MimeType { text: String::from(text), type_: String::from(type_), subtype: String::from(subtype) }
}

#[test]
fn a_parsed_type_selects_the_decoder() {
    let source = checkerboard(5, 3);
    let png = encoded(&source, image::ImageFormat::Png);
    let picture = decode_declared(&png, mime("image/png", "image", "png")).unwrap();
    assert_eq!((picture.width(), picture.height()), (5, 3));
    assert_eq!(picture.rgba(), source.as_raw());
    assert!(matches!(
        decode_declared(&png, mime("image/bmp", "image", "bmp")),
        Err(Error::Image(_))
    ));
    match decode_declared(&png, mime("image/svg+xml", "image", "svg")) {
        Err(Error::InvalidMime(text)) => assert_eq!(text, "image/svg+xml"),
        other => panic!("unexpected result: {:?}", other),
    }
    match decode_declared(&png, mime("text/plain; charset=utf-8", "text", "plain")) {
        Err(Error::InvalidMime(text)) => assert_eq!(text, "text/plain; charset=utf-8"),
        other => panic!("unexpected result: {:?}", other),
    }
}

#[test]
fn a_suffix_is_not_part_of_the_subtype() {
    let png = encoded(&checkerboard(5, 3), image::ImageFormat::Png);
    assert!(decode(&png, Some("image/png+zip")).is_ok());
    assert!(matches!(decode(&png, Some("image/svg+xml")), Err(Error::InvalidMime(_))));
}

#[test]
fn the_content_type_alone_selects_the_format() {
    assert_eq!(select_format(None).unwrap(), None);
    assert_eq!(select_format(Some("image/png")).unwrap(), Some(ImageKind::Png));
    assert_eq!(select_format(Some("Image/JPEG; q=0.5")).unwrap(), Some(ImageKind::Jpeg));
    assert_eq!(select_format(Some("image/webp")).unwrap(), Some(ImageKind::WebP));
    match select_format(Some("text/plain")) {
        Err(Error::InvalidMime(text)) => assert_eq!(text, "text/plain"),
        other => panic!("unexpected result: {:?}", other),
    }
    assert!(matches!(select_format(Some("plain")), Err(Error::MimeFromStr(_))));
    assert_eq!(classify(mime("image/gif", "image", "gif")).unwrap(), ImageKind::Gif);
    assert!(matches!(classify(mime("image/tiff", "image", "tiff")), Err(Error::InvalidMime(_))));
}

#[test]
fn a_selected_format_is_decoded_whatever_the_bytes_look_like() {
    let source = checkerboard(6, 4);
    let png = encoded(&source, image::ImageFormat::Png);
    assert_eq!(decode_with(&png, Some(ImageKind::Png)).unwrap().rgba(), source.as_raw());
    assert_eq!(decode_with(&png, None).unwrap().rgba(), source.as_raw());
    assert!(matches!(decode_with(&png, Some(ImageKind::Bmp)), Err(Error::Image(_))));
}

#[test]
fn guessing_looks_at_the_first_bytes() {
    let png = encoded(&checkerboard(6, 4), image::ImageFormat::Png);
    let mut cut = png.clone();
    cut.truncate(20);
    assert!(matches!(decode(&cut, None), Err(Error::Image(_))));
    let mut shifted = vec![0u8];
    shifted.extend_from_slice(&png);
    assert!(matches!(decode(&shifted, None), Err(Error::Image(_))));
}

#[test]
fn a_format_off_the_list_is_not_decoded() {
    assert!(matches!(decode(b"II*\0rest", None), Err(Error::UnsupportedFormat)));
    assert!(matches!(decode(b"qoif rest of the file", None), Err(Error::UnsupportedFormat)));
    assert!(matches!(normalize(b"P6 1 1 255 abc", None), Err(Error::UnsupportedFormat)));
    assert!(matches!(decode(b"II*\0rest", Some("image/png")), Err(Error::Image(_))));
}
