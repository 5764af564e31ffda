//! OCR service: the payload it is sent and what is read from its reply.
use base64::Engine;
use vstd::prelude::*;

use crate::image_parse::{base64_payload, normalize_base64_payload, ImageParseResponse};
use crate::json::{as_text, json_parsed, member, member_text, parse_value, value_json};
use crate::text::{opt_str, trim, trimmed};
use crate::base64_decode;
pub use crate::base64_text::{base64_standard_decoded, base64_standard_encoded};

verus! {

/// Why an OCR request or reply was refused.
#[derive(Debug, Clone, Copy, PartialEq, Eq, Structural)]
pub enum OcrError {
    /// The image is not valid Base64.
    InvalidBase64,
    /// The reply is not a JSON document.
    InvalidJson,
    /// The reply has no string field `data`.
    MissingData,
}

impl OcrError {
    /// The message the error is reported with.
    pub fn message(&self) -> (s: String)
        ensures
            s@ == match *self {
                OcrError::InvalidBase64 => "invalid image base64"@,
                OcrError::InvalidJson => "invalid OCR response JSON"@,
                OcrError::MissingData => "OCR response is missing string field: data"@,
            },
    {
        match self {
            OcrError::InvalidBase64 => crate::text::owned("invalid image base64"),
            OcrError::InvalidJson => crate::text::owned("invalid OCR response JSON"),
            OcrError::MissingData => crate::text::owned("OCR response is missing string field: data"),
        }
    }
}

/// `base64::engine::general_purpose::STANDARD.encode`: the standard padded
/// Base64 text of the bytes.
#[verifier::external_body]
fn base64_encode(bytes: &[u8]) -> (r: String)
    ensures
        r@ == base64_standard_encoded(bytes@),
{
    base64::engine::general_purpose::STANDARD.encode(bytes)
}

/// The image as the OCR service is sent it: its Base64 payload decoded and
/// encoded again, or `InvalidBase64` where the payload does not decode.
pub open spec fn ocr_payload_spec(image_base64: Seq<char>) -> Result<Seq<char>, OcrError> {
    match base64_standard_decoded(base64_payload(image_base64)) {
        Some(b) => Ok(base64_standard_encoded(b)),
        None => Err(OcrError::InvalidBase64),
    }
}

/// Prepares an image for the OCR service.
pub fn ocr_payload(image_base64: &str) -> (r: Result<String, OcrError>)
    ensures
        match r {
            Ok(s) => ocr_payload_spec(image_base64@) == Ok::<Seq<char>, OcrError>(s@),
            Err(e) => ocr_payload_spec(image_base64@) == Err::<Seq<char>, OcrError>(e),
        },
{
    let payload = normalize_base64_payload(image_base64);
    match base64_decode(payload.as_str()) {
        Some(bytes) => Ok(base64_encode(bytes.as_slice())),
        None => Err(OcrError::InvalidBase64),
    }
}

/// The text an OCR reply value carries: its string field `data`, trimmed.
pub open spec fn ocr_text_of(j: crate::json::JsonView) -> Option<Seq<char>> {
    match as_text(member(j, "data"@)) {
        Some(d) => Some(trim(d)),
        None => None,
    }
}

/// The text of a parsed OCR reply, if it has a string field `data`.
pub fn ocr_text(value: &serde_json::Value) -> (r: Option<String>)
    ensures
        opt_str(r) == ocr_text_of(value_json(*value)),
{
    match member_text(value, "data") {
        Some(d) => Some(trimmed(d.as_str())),
        None => None,
    }
}

/// What is read from an OCR reply: its text, `InvalidJson` where the reply
/// is not JSON, `MissingData` where it has no string field `data`.
pub open spec fn ocr_reply_spec(raw: Seq<char>) -> Result<Seq<char>, OcrError> {
    match json_parsed(raw) {
        Some(j) => match ocr_text_of(j) {
            Some(t) => Ok(t),
            None => Err(OcrError::MissingData),
        },
        None => Err(OcrError::InvalidJson),
    }
}

/// Reads an OCR reply into the description, keeping the reply as received.
pub fn ocr_reply(raw_response: String) -> (r: Result<ImageParseResponse, OcrError>)
    ensures
        match r {
            Ok(resp) => ocr_reply_spec(raw_response@) == Ok::<Seq<char>, OcrError>(resp.description@)
                && resp.raw_response@ == raw_response@,
            Err(e) => ocr_reply_spec(raw_response@) == Err::<Seq<char>, OcrError>(e),
        },
{
    match parse_value(raw_response.as_str()) {
        Some(value) => match ocr_text(&value) {
            Some(description) => Ok(ImageParseResponse { description, raw_response }),
            None => Err(OcrError::MissingData),
        },
        None => Err(OcrError::InvalidJson),
    }
}

} // verus!
