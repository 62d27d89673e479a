//! Body encoding strategies: each turns a value into bytes with a suggested
//! content type, and bytes back into a value.
use vstd::prelude::*;

verus! {

/// The formats a body can be encoded in or decoded from.
#[derive(Clone, Copy, Debug, PartialEq, Eq, Structural)]
pub enum BodyFormat {
    Json,
    Yaml,
    Form,
    Text,
}

pub open spec fn format_content_type(f: BodyFormat) -> Seq<char> {
    match f {
        BodyFormat::Json => "application/json"@,
        BodyFormat::Yaml => "application/yaml"@,
        BodyFormat::Form => "application/x-www-form-urlencoded"@,
        BodyFormat::Text => "text/plain"@,
    }
}

impl BodyFormat {
    /// The content type a body in this format is sent with.
    pub fn content_type(&self) -> (r: &'static str)
        ensures
            r@ == format_content_type(*self),
    {
        match self {
            BodyFormat::Json => "application/json",
            BodyFormat::Yaml => "application/yaml",
            BodyFormat::Form => "application/x-www-form-urlencoded",
            BodyFormat::Text => "text/plain",
        }
    }
}

/// What `String::from_utf8_lossy` makes of a byte string.
pub uninterp spec fn utf8_lossy(b: Seq<u8>) -> Seq<char>;

/// Relies on `String::from_utf8_lossy`: valid UTF-8 is decoded as it is,
/// invalid sequences become U+FFFD.
#[verifier::external_body]
pub(crate) fn lossy_text(b: &[u8]) -> (r: String)
    ensures
        r@ == utf8_lossy(b@),
        vstd::utf8::valid_utf8(b@) ==> r@ == vstd::utf8::decode_utf8(b@),
{
    String::from_utf8_lossy(b).to_string()
}

/// Relies on `serde_json::to_vec` to encode a request body as JSON; the
/// error is kept as text.
#[verifier::external_body]
pub(crate) fn encode_json<T: serde::Serialize>(value: &T) -> (r: Result<Vec<u8>, String>) {
    serde_json::to_vec(value).map_err(|e| e.to_string())
}

/// Relies on `serde_yaml::to_string` to encode a request body as YAML; the
/// bytes are those of the text, the error is kept as text.
#[verifier::external_body]
pub(crate) fn encode_yaml<T: serde::Serialize>(value: &T) -> (r: Result<Vec<u8>, String>) {
    serde_yaml::to_string(value).map(|s| s.into_bytes()).map_err(|e| e.to_string())
}

/// Relies on `serde_urlencoded::to_string` to encode a request body as a
/// form; the bytes are those of the text, the error is kept as text.
#[verifier::external_body]
pub(crate) fn encode_form<T: serde::Serialize>(value: &T) -> (r: Result<Vec<u8>, String>) {
    serde_urlencoded::to_string(value).map(|s| s.into_bytes()).map_err(|e| e.to_string())
}

/// Relies on `serde_json::from_slice` to decode a response body; the error
/// is kept as text.
#[verifier::external_body]
pub(crate) fn decode_json<T: serde::de::DeserializeOwned>(b: &[u8]) -> (r: Result<T, String>) {
    serde_json::from_slice::<T>(b).map_err(|e| e.to_string())
}

/// Relies on `serde_yaml::from_slice` to decode a response body; the error
/// is kept as text.
#[verifier::external_body]
pub(crate) fn decode_yaml<T: serde::de::DeserializeOwned>(b: &[u8]) -> (r: Result<T, String>) {
    serde_yaml::from_slice::<T>(b).map_err(|e| e.to_string())
}

/// Relies on `serde_urlencoded::from_bytes` to decode a response body; the
/// error is kept as text.
#[verifier::external_body]
pub(crate) fn decode_form<T: serde::de::DeserializeOwned>(b: &[u8]) -> (r: Result<T, String>) {
    serde_urlencoded::from_bytes::<T>(b).map_err(|e| e.to_string())
}

/// Encodes a value in the given format. `Text` has no encoder for arbitrary
/// values and is refused.
pub fn encode_body<T: serde::Serialize>(format: BodyFormat, value: &T) -> (r: Result<Vec<u8>, String>)
    ensures
        format == BodyFormat::Text ==> r is Err,
{
    match format {
        BodyFormat::Json => encode_json(value),
        BodyFormat::Yaml => encode_yaml(value),
        BodyFormat::Form => encode_form(value),
        BodyFormat::Text => Err("values are not encoded as text".to_owned()),
    }
}

} // verus!
