//! Knowledge-base service library: request rules, access control, text
//! processing and the decisions behind archive extraction, graph building and
//! search, each with its contract.
pub mod api;
pub mod archive;
pub mod base64_text;
pub mod config;
pub mod db;
pub mod export;
pub mod file_content;
pub mod graph;
pub mod hashing;
pub mod image_description;
pub mod image_ocr;
pub mod image_parse;
pub mod json;
pub mod kb_acl;
pub mod logging;
pub mod matching;
pub mod text;

use base64::Engine;
use vstd::prelude::*;
use vstd::utf8::{decode_utf8, valid_utf8};

use crate::api::error::{is_unauthorized, ApiError};
pub use crate::base64_text::base64_standard_decoded;
use crate::text::{chars_of, chars_eq, owned, str_from_utf8};

verus! {

/// User authentication info taken from request headers.
#[derive(Clone, Debug)]
pub struct AuthUser {
    pub user_id: String,
    pub user_name: String,
    pub role: String,
}

impl AuthUser {
    /// Whether the user has the global administrator role.
    pub fn is_admin(&self) -> (b: bool)
        ensures
            b == (self.role@ == "admin"@),
    {
        let role = chars_of(self.role.as_str());
        let admin = chars_of("admin");
        chars_eq(role.as_slice(), admin.as_slice())
    }
}

/// `base64::engine::general_purpose::STANDARD.decode`: the decoded bytes, or
/// `None` where the crate reports a `DecodeError`. The engine pads on encode,
/// requires canonical padding and rejects trailing bits on decode, so a text
/// decodes exactly when it is the standard encoding of some bytes.
#[verifier::external_body]
pub(crate) fn base64_decode(value: &str) -> (r: Option<Vec<u8>>)
    ensures
        match r {
            Some(b) => base64_standard_decoded(value@) == Some(b@),
            None => base64_standard_decoded(value@) is None,
        },
{
    base64::engine::general_purpose::STANDARD.decode(value).ok()
}

/// The user name a header carries: the Base64-decoded text when it decodes to
/// UTF-8, the header as given otherwise.
pub open spec fn decoded_user_name(value: Seq<char>, decoded: Option<Seq<u8>>) -> Seq<char> {
    match decoded {
        Some(b) => if valid_utf8(b) {
            decode_utf8(b)
        } else {
            value
        },
        None => value,
    }
}

/// Chooses the user name from a header and the result of decoding it.
pub fn user_name_from_decoded(value: &str, decoded: Option<Vec<u8>>) -> (r: String)
    ensures
        r@ == decoded_user_name(value@, match decoded {
            Some(b) => Some(b@),
            None => None,
        }),
{
    match decoded {
        Some(bytes) => match str_from_utf8(bytes.as_slice()) {
            Some(s) => owned(s),
            None => owned(value),
        },
        None => owned(value),
    }
}

/// Decodes a Base64 user name header, keeping the header when it does not
/// decode to UTF-8 text.
pub fn decode_base64_if_utf8(value: &str) -> (r: String)
    ensures
        r@ == decoded_user_name(value@, base64_standard_decoded(value@)),
{
    let decoded = base64_decode(value);
    user_name_from_decoded(value, decoded)
}

pub const MSG_MISSING_USER_ID: &'static str = "Missing x-user-id header";

pub const MSG_MISSING_ROLE: &'static str = "Missing x-role header";

/// Builds the authenticated user from the `x-user-id`, `x-user-name` and
/// `x-role` headers (each `None` when absent or not visible ASCII text); the
/// user name is Base64-decoded when possible and empty when absent.
pub fn authenticate(user_id: Option<String>, user_name: Option<String>, role: Option<String>) -> (r: Result<AuthUser, ApiError>)
    ensures
        match (user_id, role) {
            (Some(u), Some(ro)) => r matches Ok(a) && a.user_id == u && a.role == ro && a.user_name@
                == match user_name {
                Some(n) => decoded_user_name(n@, base64_standard_decoded(n@)),
                None => Seq::<char>::empty(),
            },
            (None, _) => r matches Err(e) && is_unauthorized(e, MSG_MISSING_USER_ID@),
            (Some(_), None) => r matches Err(e) && is_unauthorized(e, MSG_MISSING_ROLE@),
        },
{
    match (user_id, role) {
        (Some(user_id), Some(role)) => {
            let user_name = match user_name {
                Some(n) => decode_base64_if_utf8(n.as_str()),
                None => String::new(),
            };
            Ok(AuthUser { user_id, user_name, role })
        },
        (None, _) => Err(ApiError::unauthorized(MSG_MISSING_USER_ID)),
        (Some(_), None) => Err(ApiError::unauthorized(MSG_MISSING_ROLE)),
    }
}

} // verus!
