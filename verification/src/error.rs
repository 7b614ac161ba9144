//! The failures that the library reports or carries for its caller.

use vstd::prelude::*;
use vstd::string::*;
use crate::decimal::{decimal, render};

verus! {

/// `image::ImageError`, carried as an opaque value.
#[verifier::external_type_specification]
#[verifier::external_body]
pub struct ExImageError(image::ImageError);

/// `mime::FromStrError`, carried as an opaque value.
#[verifier::external_type_specification]
#[verifier::external_body]
pub struct ExMimeFromStrError(mime::FromStrError);

/// Why an avatar could not be produced.
#[derive(Debug)]
pub enum Error {
    /// The request to `url` never got an answer (connection, TLS,
    /// timeout).
    Transport { url: String, reason: String },
    /// The server answered the request to `url` with a status outside the
    /// success range.
    Status { url: String, code: u16 },
    /// The metadata body that `url` gave was not the expected JSON
    /// document.
    Json { url: String, reason: String },
    /// The content type header was not readable text.
    Header,
    /// The content type header was not a MIME type.
    MimeFromStr(mime::FromStrError),
    /// The declared MIME type, given here in full, is none of the image
    /// types that can be decoded.
    InvalidMime(String),
    /// No content type was declared, and the bytes are of an image format
    /// that cannot be decoded.
    UnsupportedFormat,
    /// The image codec refused the bytes, or could not write the thumbnail.
    Image(image::ImageError),
}

/// Calls `to_string` on an `image::ImageError`: the text that the codec
/// gives for its failure. Nothing is claimed of that text.
#[verifier::external_body]
fn image_error_text(e: &image::ImageError) -> (text: String) {
    e.to_string()
}

/// Calls `to_string` on a `mime::FromStrError`: the text that the parser
/// gives for its failure. Nothing is claimed of that text.
#[verifier::external_body]
fn mime_error_text(e: &mime::FromStrError) -> (text: String) {
    e.to_string()
}

impl Error {
    /// Whether the words for this failure are the library's own. Those for
    /// a failure of the image codec or of the MIME parser are theirs.
    pub open spec fn is_worded_here(&self) -> bool {
        !(self is Image) && !(self is MimeFromStr)
    }

    /// The address of the request that failed, where the failure is that
    /// of a request.
    pub open spec fn address(&self) -> Option<Seq<char>> {
        match self {
            Error::Transport { url, .. } => Some(url@),
            Error::Status { url, .. } => Some(url@),
            Error::Json { url, .. } => Some(url@),
            _ => None,
        }
    }

    /// The address of the request that failed, where the failure is that
    /// of a request.
    pub fn url(&self) -> (res: Option<String>)
        ensures
            match res {
                Some(url) => self.address() == Some(url@),
                None => self.address() is None,
            },
    {
        match self {
            Error::Transport { url, .. } => Some(url.clone()),
            Error::Status { url, .. } => Some(url.clone()),
            Error::Json { url, .. } => Some(url.clone()),
            _ => None,
        }
    }

    /// The words for a failure, where they are the library's own.
    pub open spec fn wording(&self) -> Seq<char> {
        match self {
            Error::Transport { url, reason } => reason@ + " for url "@ + url@,
            Error::Status { url, code } => "HTTP status "@ + decimal(*code as nat) + " for url "@
                + url@,
            Error::Json { url, reason } => reason@ + " for url "@ + url@,
            Error::Header => "content type is not text"@,
            Error::InvalidMime(mime) => mime@ + " is not a known image MIME type"@,
            Error::UnsupportedFormat => "the image format is not supported"@,
            _ => Seq::empty(),
        }
    }

    /// Puts a failure into words.
    pub fn message(&self) -> (text: String)
        ensures
            self.is_worded_here() ==> text@ == self.wording(),
    {
        match self {
            Error::Transport { url, reason } => reason.clone().concat(" for url ").concat(
                url.as_str(),
            ),
            Error::Status { url, code } => {
                let number = render(*code as u64);
                String::from_str("HTTP status ").concat(number.as_str()).concat(" for url ").concat(
                    url.as_str(),
                )
            },
            Error::Json { url, reason } => reason.clone().concat(" for url ").concat(url.as_str()),
            Error::Header => String::from_str("content type is not text"),
            Error::MimeFromStr(e) => mime_error_text(e),
            Error::InvalidMime(mime) => mime.clone().concat(" is not a known image MIME type"),
            Error::UnsupportedFormat => String::from_str("the image format is not supported"),
            Error::Image(e) => image_error_text(e),
        }
    }
}

} // verus!
