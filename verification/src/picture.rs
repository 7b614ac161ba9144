//! Decoded pictures and the thumbnails made from them.

use vstd::prelude::*;
use crate::error::Error;

verus! {

/// Side length of every thumbnail, in pixels.
pub const THUMBNAIL_SIDE: u32 = 16;

/// The image formats that a declared content type can select.
#[derive(Clone, Copy, Debug, PartialEq, Eq, Structural)]
pub enum ImageKind {
    Bmp,
    Gif,
    Jpeg,
    Png,
    WebP,
}

/// A decoded picture: rows of pixels, four bytes (red, green, blue, alpha)
/// each.
#[derive(Debug)]
pub struct Picture {
    width: u32,
    height: u32,
    rgba: Vec<u8>,
}

/// What a `Picture` is, mathematically.
pub struct PictureView {
    pub width: nat,
    pub height: nat,
    pub rgba: Seq<u8>,
}

impl PictureView {
    /// There are exactly four bytes for every pixel.
    pub open spec fn wf(self) -> bool {
        self.rgba.len() == 4 * self.width * self.height
    }
}

impl View for Picture {
    type V = PictureView;

    closed spec fn view(&self) -> PictureView {
        PictureView { width: self.width as nat, height: self.height as nat, rgba: self.rgba@ }
    }
}

impl Picture {
    #[verifier::type_invariant]
    spec fn inv(self) -> bool {
        self.rgba@.len() == 4 * self.width * self.height
    }

    /// Makes a picture from its pixel bytes, or nothing if their number does
    /// not fit the dimensions.
    pub fn from_rgba(width: u32, height: u32, rgba: Vec<u8>) -> (res: Option<Picture>)
        ensures
            match res {
                Some(p) => p@ == (PictureView { width: width as nat, height: height as nat, rgba: rgba@ })
                    && p@.wf(),
                None => rgba@.len() != 4 * width * height,
            },
    {
        assert(width * height <= 0xffff_ffff * 0xffff_ffff) by (nonlinear_arith)
            requires
                width <= 0xffff_ffff,
                height <= 0xffff_ffff,
        ;
        let pixels: u128 = (width as u128) * (height as u128);
        assert(4 * pixels == 4 * width * height) by (nonlinear_arith)
            requires
                pixels == width * height,
        ;
        let needed: u128 = 4 * pixels;
        if rgba.len() as u128 == needed {
            Some(Picture { width, height, rgba })
        } else {
            None
        }
    }

    /// The number of pixels in a row.
    pub fn width(&self) -> (w: u32)
        ensures
            w == self@.width,
    {
        self.width
    }

    /// The number of rows.
    pub fn height(&self) -> (h: u32)
        ensures
            h == self@.height,
    {
        self.height
    }

    /// The pixel bytes, row by row; there are four for every pixel.
    pub fn rgba(&self) -> (bytes: &Vec<u8>)
        ensures
            bytes@ == self@.rgba,
            self@.wf(),
    {
        proof {
            use_type_invariant(self);
        }
        &self.rgba
    }
}

/// A MIME type as its parser read it: the whole text as the parser keeps
/// it, and the two names in front of any suffix or parameter, which it
/// keeps in lower case.
#[derive(Debug)]
pub struct MimeType {
    pub text: String,
    pub type_: String,
    pub subtype: String,
}

/// What a `MimeType` is, mathematically.
pub struct MimeTypeView {
    pub text: Seq<char>,
    pub type_: Seq<char>,
    pub subtype: Seq<char>,
}

impl View for MimeType {
    type V = MimeTypeView;

    open spec fn view(&self) -> MimeTypeView {
        MimeTypeView { text: self.text@, type_: self.type_@, subtype: self.subtype@ }
    }
}

/// What the MIME parser makes of a header value; `None` where it refuses it.
pub uninterp spec fn parsed_mime(text: Seq<char>) -> Option<MimeTypeView>;

/// What the decoder for one format makes of a body; `None` where it fails.
pub uninterp spec fn decoded_as(body: Seq<u8>, kind: ImageKind) -> Option<PictureView>;

/// What the first bytes of a body say of its format.
pub enum Guess {
    /// One of the formats that can be decoded.
    Kind(ImageKind),
    /// An image format, but none that can be decoded.
    Other,
    /// No image format that the codec knows.
    Unknown,
}

/// What the codec takes the first bytes of a body for.
pub uninterp spec fn guessed(body: Seq<u8>) -> Guess;

/// The pixel bytes of a picture scaled to the given size by picking, for
/// every target pixel, the nearest source pixel.
pub uninterp spec fn resized_nearest(source: PictureView, width: u32, height: u32) -> Seq<u8>;

/// The PNG file that holds a picture; `None` where the encoder fails.
pub uninterp spec fn encoded_png(picture: PictureView) -> Option<Seq<u8>>;

/// Calls `mime::Mime::from_str` and copies out the parsed text (`as_ref`),
/// `type_()` and `subtype()`. Trusted: the outcome is the one that
/// `parsed_mime` names for this text, an error exactly where it names none.
#[verifier::external_body]
fn parse_mime(text: &str) -> (res: Result<MimeType, mime::FromStrError>)
    ensures
        match res {
            Ok(m) => parsed_mime(text@) == Some(m@),
            Err(_) => parsed_mime(text@) is None,
        },
{
    let mime = text.parse::<mime::Mime>()?;
    Ok(MimeType {
        text: mime.as_ref().to_owned(),
        type_: mime.type_().as_str().to_owned(),
        subtype: mime.subtype().as_str().to_owned(),
    })
}

/// Calls `image::load` with the format that `kind` stands for and takes the
/// result as 8-bit RGBA (`into_rgba8`). Trusted: the outcome is the one that
/// `decoded_as` names for these bytes and this format, an error exactly
/// where it names none, and a decoded picture has four bytes for each of
/// its pixels.
#[verifier::external_body]
fn decode_as(body: &[u8], kind: ImageKind) -> (res: Result<Picture, image::ImageError>)
    ensures
        match res {
            Ok(p) => decoded_as(body@, kind) == Some(p@) && p@.wf(),
            Err(_) => decoded_as(body@, kind) is None,
        },
{
    let format = match kind {
        ImageKind::Bmp => image::ImageFormat::Bmp,
        ImageKind::Gif => image::ImageFormat::Gif,
        ImageKind::Jpeg => image::ImageFormat::Jpeg,
        ImageKind::Png => image::ImageFormat::Png,
        ImageKind::WebP => image::ImageFormat::WebP,
    };
    let pixels = image::load(std::io::Cursor::new(body), format)?.into_rgba8();
    Ok(Picture { width: pixels.width(), height: pixels.height(), rgba: pixels.into_raw() })
}

/// Calls `image::guess_format`, which looks at the first bytes alone, and
/// tells the formats that can be decoded apart. Trusted: the outcome is the
/// one that `guessed` names for these bytes: one of the five formats, some
/// other format, or an error where the codec knows none.
#[verifier::external_body]
fn guess_kind(body: &[u8]) -> (res: Result<Option<ImageKind>, image::ImageError>)
    ensures
        match res {
            Ok(Some(kind)) => guessed(body@) == Guess::Kind(kind),
            Ok(None) => guessed(body@) == Guess::Other,
            Err(_) => guessed(body@) == Guess::Unknown,
        },
{
    Ok(match image::guess_format(body)? {
        image::ImageFormat::Bmp => Some(ImageKind::Bmp),
        image::ImageFormat::Gif => Some(ImageKind::Gif),
        image::ImageFormat::Jpeg => Some(ImageKind::Jpeg),
        image::ImageFormat::Png => Some(ImageKind::Png),
        image::ImageFormat::WebP => Some(ImageKind::WebP),
        _ => None,
    })
}

/// Calls `image::imageops::resize` with `FilterType::Nearest`. Trusted: the
/// result has exactly the size asked for, with four bytes for each pixel,
/// and its pixel bytes are those that `resized_nearest` names. The source
/// must hold four bytes for each of its pixels, or the call would panic.
#[verifier::external_body]
fn resize_nearest(source: &Picture, width: u32, height: u32) -> (res: Picture)
    requires
        source@.wf(),
    ensures
        res@.width == width,
        res@.height == height,
        res@.rgba == resized_nearest(source@, width, height),
        res@.wf(),
{
    let pixels = image::ImageBuffer::<image::Rgba<u8>, &[u8]>::from_raw(
        source.width,
        source.height,
        &source.rgba[..],
    ).unwrap();
    let scaled = image::imageops::resize(&pixels, width, height, image::imageops::FilterType::Nearest);
    Picture { width: scaled.width(), height: scaled.height(), rgba: scaled.into_raw() }
}

/// Calls `image::ImageBuffer::write_to` with `ImageFormat::Png` on a buffer
/// in memory. Trusted: the outcome is the one that `encoded_png` names for
/// this picture, an error exactly where it names none. The picture must hold
/// four bytes for each of its pixels, or the call would panic.
#[verifier::external_body]
fn encode_png(picture: &Picture) -> (res: Result<Vec<u8>, image::ImageError>)
    requires
        picture@.wf(),
    ensures
        match res {
            Ok(bytes) => encoded_png(picture@) == Some(bytes@),
            Err(_) => encoded_png(picture@) is None,
        },
{
    let pixels = image::ImageBuffer::<image::Rgba<u8>, &[u8]>::from_raw(
        picture.width,
        picture.height,
        &picture.rgba[..],
    ).unwrap();
    let mut out = std::io::Cursor::new(Vec::new());
    pixels.write_to(&mut out, image::ImageFormat::Png)?;
    Ok(out.into_inner())
}

/// Whether two texts hold the same characters.
fn same_text(a: &str, b: &str) -> (res: bool)
    ensures
        res == (a@ == b@),
{
    a.to_owned() == b.to_owned()
}

impl ImageKind {
    /// The format that a MIME type selects: `image/bmp`, `image/gif`,
    /// `image/jpeg`, `image/png` and `image/webp` each select one, and
    /// nothing else selects any. Both names are expected in lower case.
    pub open spec fn of_mime(type_: Seq<char>, subtype: Seq<char>) -> Option<ImageKind> {
        if type_ != "image"@ {
            None
        } else if subtype == "bmp"@ {
            Some(ImageKind::Bmp)
        } else if subtype == "gif"@ {
            Some(ImageKind::Gif)
        } else if subtype == "jpeg"@ {
            Some(ImageKind::Jpeg)
        } else if subtype == "png"@ {
            Some(ImageKind::Png)
        } else if subtype == "webp"@ {
            Some(ImageKind::WebP)
        } else {
            None
        }
    }

    /// Looks a MIME type up in the list of formats that can be decoded.
    pub fn from_mime(type_: &str, subtype: &str) -> (res: Option<ImageKind>)
        ensures
            res == Self::of_mime(type_@, subtype@),
    {
        if !same_text(type_, "image") {
            None
        } else if same_text(subtype, "bmp") {
            Some(ImageKind::Bmp)
        } else if same_text(subtype, "gif") {
            Some(ImageKind::Gif)
        } else if same_text(subtype, "jpeg") {
            Some(ImageKind::Jpeg)
        } else if same_text(subtype, "png") {
            Some(ImageKind::Png)
        } else if same_text(subtype, "webp") {
            Some(ImageKind::WebP)
        } else {
            None
        }
    }
}

/// How an attempt to decode a body ends.
pub enum Decoding {
    /// The body holds this picture.
    Picture(PictureView),
    /// The declared content type is no MIME type at all.
    MalformedMime,
    /// The declared content type, given here in full, is no image format
    /// that can be decoded.
    UnsupportedMime(Seq<char>),
    /// No content type was declared, and the bytes are of an image format
    /// that cannot be decoded.
    UnsupportedFormat,
    /// The image codec failed: the bytes are of no format that it knows or
    /// no valid image of the format in question, or the thumbnail could not
    /// be written.
    CodecFailure,
}

/// What a source answered, as far as the rest cares: a picture, or the
/// reason why there is none.
pub type Outcome = Result<PictureView, Error>;

/// A result of decoding as the contracts see it.
pub open spec fn outcome_of(res: Result<Picture, Error>) -> Outcome {
    match res {
        Ok(picture) => Ok(picture@),
        Err(e) => Err(e),
    }
}

/// The content type as the contracts see it.
pub open spec fn text_view(content_type: Option<&str>) -> Option<Seq<char>> {
    match content_type {
        Some(text) => Some(text@),
        None => None,
    }
}

/// Whether a failure is the one that goes with a way for decoding to end.
pub open spec fn error_reports(e: Error, end: Decoding) -> bool {
    match end {
        Decoding::Picture(_) => false,
        Decoding::MalformedMime => e is MimeFromStr,
        Decoding::UnsupportedMime(text) => e matches Error::InvalidMime(t) && t@ == text,
        Decoding::UnsupportedFormat => e is UnsupportedFormat,
        Decoding::CodecFailure => e is Image,
    }
}

/// Whether an outcome is the one that goes with a way for decoding to end:
/// the picture, which has four bytes for each pixel, or the failure of
/// that kind.
pub open spec fn decodes_to(end: Decoding, outcome: Outcome) -> bool {
    match end {
        Decoding::Picture(p) => outcome == Ok::<PictureView, Error>(p) && p.wf(),
        failure => outcome matches Err(e) && error_reports(e, failure),
    }
}

/// The format that a content type selects, before a byte of the body is
/// looked at: the one on the list that a declared type names, or none
/// where no type is declared and the format is to be guessed. A declared
/// type that is no MIME type, or names nothing on the list, is refused.
pub open spec fn selected(content_type: Option<Seq<char>>) -> Result<Option<ImageKind>, Decoding> {
    match content_type {
        None => Ok(None),
        Some(text) => match parsed_mime(text) {
            None => Err(Decoding::MalformedMime),
            Some(mime) => match ImageKind::of_mime(mime.type_, mime.subtype) {
                None => Err(Decoding::UnsupportedMime(mime.text)),
                Some(kind) => Ok(Some(kind)),
            },
        },
    }
}

/// How decoding a body in one format ends.
pub open spec fn decoding_as(body: Seq<u8>, kind: ImageKind) -> Decoding {
    match decoded_as(body, kind) {
        Some(p) => Decoding::Picture(p),
        None => Decoding::CodecFailure,
    }
}

/// How decoding a body ends once the format is selected. A selected format
/// is the one that is decoded, whatever the bytes look like. Without one
/// the first bytes decide.
pub open spec fn decoding(body: Seq<u8>, format: Option<ImageKind>) -> Decoding {
    match format {
        Some(kind) => decoding_as(body, kind),
        None => match guessed(body) {
            Guess::Kind(kind) => decoding_as(body, kind),
            Guess::Other => Decoding::UnsupportedFormat,
            Guess::Unknown => Decoding::CodecFailure,
        },
    }
}

/// How decoding a body with its content type ends. A declared type that
/// is refused is never made up for by looking at the bytes.
pub open spec fn decode_outcome(body: Seq<u8>, content_type: Option<Seq<char>>) -> Decoding {
    match selected(content_type) {
        Ok(format) => decoding(body, format),
        Err(failure) => failure,
    }
}

/// Whether a declared content type is refused does not depend on the body:
/// one that is no MIME type, or selects no format that can be decoded, ends
/// the same way whatever bytes come with it.
pub proof fn lemma_refusal_ignores_body(a: Seq<u8>, b: Seq<u8>, content_type: Option<Seq<char>>)
    requires
        selected(content_type) is Err,
    ensures
        decode_outcome(a, content_type) == decode_outcome(b, content_type),
        decode_outcome(a, content_type) is MalformedMime || decode_outcome(
            a,
            content_type,
        ) is UnsupportedMime,
{
}

/// Looks a parsed content type up in the list of formats, and refuses one
/// that is not on it.
pub fn classify(mime: MimeType) -> (res: Result<ImageKind, Error>)
    ensures
        match ImageKind::of_mime(mime@.type_, mime@.subtype) {
            Some(kind) => res == Ok::<ImageKind, Error>(kind),
            None => res matches Err(Error::InvalidMime(t)) && t@ == mime@.text,
        },
{
    match ImageKind::from_mime(mime.type_.as_str(), mime.subtype.as_str()) {
        Some(kind) => Ok(kind),
        None => Err(Error::InvalidMime(mime.text)),
    }
}

/// Selects the format by the content type alone, so that a refused type
/// costs no look at the body.
pub fn select_format(content_type: Option<&str>) -> (res: Result<Option<ImageKind>, Error>)
    ensures
        match selected(text_view(content_type)) {
            Ok(format) => res == Ok::<Option<ImageKind>, Error>(format),
            Err(failure) => res matches Err(e) && error_reports(e, failure),
        },
{
    match content_type {
        None => Ok(None),
        Some(text) => match parse_mime(text) {
            Err(e) => Err(Error::MimeFromStr(e)),
            Ok(mime) => match classify(mime) {
                Ok(kind) => Ok(Some(kind)),
                Err(e) => Err(e),
            },
        },
    }
}

/// Decodes a body in one format.
pub fn decode_kind(body: &[u8], kind: ImageKind) -> (res: Result<Picture, Error>)
    ensures
        decodes_to(decoding_as(body@, kind), outcome_of(res)),
{
    match decode_as(body, kind) {
        Ok(picture) => Ok(picture),
        Err(e) => Err(Error::Image(e)),
    }
}

/// Decodes a body in the format that a parsed content type selects, and
/// refuses a content type that selects none without looking at the body.
pub fn decode_declared(body: &[u8], mime: MimeType) -> (res: Result<Picture, Error>)
    ensures
        match ImageKind::of_mime(mime@.type_, mime@.subtype) {
            None => res matches Err(Error::InvalidMime(t)) && t@ == mime@.text,
            Some(kind) => decodes_to(decoding_as(body@, kind), outcome_of(res)),
        },
{
    match classify(mime) {
        Ok(kind) => decode_kind(body, kind),
        Err(e) => Err(e),
    }
}

/// Decodes a body once the format is selected; without a selected format
/// it is guessed from the first bytes.
pub fn decode_with(body: &[u8], format: Option<ImageKind>) -> (res: Result<Picture, Error>)
    ensures
        decodes_to(decoding(body@, format), outcome_of(res)),
{
    match format {
        Some(kind) => decode_kind(body, kind),
        None => match guess_kind(body) {
            Ok(Some(kind)) => decode_kind(body, kind),
            Ok(None) => Err(Error::UnsupportedFormat),
            Err(e) => Err(Error::Image(e)),
        },
    }
}

/// Decodes a fetched body into a picture.
pub fn decode(body: &[u8], content_type: Option<&str>) -> (res: Result<Picture, Error>)
    ensures
        decodes_to(decode_outcome(body@, text_view(content_type)), outcome_of(res)),
{
    match select_format(content_type) {
        Ok(format) => decode_with(body, format),
        Err(e) => Err(e),
    }
}

/// The picture that a thumbnail file holds: the picture scaled to a square
/// of `THUMBNAIL_SIDE` pixels, whatever its proportions were.
pub open spec fn thumbnail_picture(picture: PictureView) -> PictureView {
    PictureView {
        width: THUMBNAIL_SIDE as nat,
        height: THUMBNAIL_SIDE as nat,
        rgba: resized_nearest(picture, THUMBNAIL_SIDE, THUMBNAIL_SIDE),
    }
}

/// The thumbnail file of a picture: the scaled picture written as PNG.
/// `None` where the encoder fails.
pub open spec fn thumbnail_of(picture: PictureView) -> Option<Seq<u8>> {
    encoded_png(thumbnail_picture(picture))
}

/// Makes the thumbnail file of a picture. What is handed to the encoder
/// has `THUMBNAIL_SIDE` rows of `THUMBNAIL_SIDE` pixels, four bytes each.
pub fn thumbnail(picture: &Picture) -> (res: Result<Vec<u8>, Error>)
    ensures
        thumbnail_picture(picture@).wf(),
        thumbnail_picture(picture@).rgba.len() == 4 * THUMBNAIL_SIDE * THUMBNAIL_SIDE,
        match res {
            Ok(bytes) => thumbnail_of(picture@) == Some(bytes@),
            Err(e) => e is Image && thumbnail_of(picture@) is None,
        },
{
    proof {
        use_type_invariant(picture);
    }
    let small = resize_nearest(picture, THUMBNAIL_SIDE, THUMBNAIL_SIDE);
    assert(small@ == thumbnail_picture(picture@));
    match encode_png(&small) {
        Ok(bytes) => Ok(bytes),
        Err(e) => Err(Error::Image(e)),
    }
}

/// What normalizing a body with its content type gives: the thumbnail
/// file, or the way in which making it fails.
pub open spec fn normalize_outcome(body: Seq<u8>, content_type: Option<Seq<char>>) -> Result<
    Seq<u8>,
    Decoding,
> {
    match decode_outcome(body, content_type) {
        Decoding::Picture(p) => match thumbnail_of(p) {
            Some(bytes) => Ok(bytes),
            None => Err(Decoding::CodecFailure),
        },
        failure => Err(failure),
    }
}

/// Turns a fetched body into a thumbnail file: decodes it, scales it to the
/// thumbnail size and writes it as PNG.
pub fn normalize(body: &[u8], content_type: Option<&str>) -> (res: Result<Vec<u8>, Error>)
    ensures
        match normalize_outcome(body@, text_view(content_type)) {
            Ok(bytes) => res matches Ok(v) && v@ == bytes,
            Err(failure) => res matches Err(e) && error_reports(e, failure),
        },
{
    let picture = decode(body, content_type)?;
    thumbnail(&picture)
}

} // verus!
