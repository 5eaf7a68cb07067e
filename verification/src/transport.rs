//! The tonic and http types that the client carries, and the calls into tonic
//! that it makes.
use vstd::prelude::*;

verus! {

/// A gRPC channel (`tonic::transport::Channel`).
#[verifier::external_type_specification]
#[verifier::external_body]
pub struct ExChannel(tonic::transport::Channel);

/// Clones a channel handle (`<tonic::transport::Channel as Clone>::clone`); the
/// clone talks over the same connection. Nothing about the result is stated.
pub assume_specification[ <tonic::transport::Channel as Clone>::clone ](channel: &tonic::transport::Channel) -> (r: tonic::transport::Channel);

/// A channel's target and settings (`tonic::transport::Endpoint`).
#[verifier::external_type_specification]
#[verifier::external_body]
pub struct ExEndpoint(tonic::transport::Endpoint);

/// A transport failure (`tonic::transport::Error`).
#[verifier::external_type_specification]
#[verifier::external_body]
pub struct ExTransportError(tonic::transport::Error);

/// A refused metadata value (`tonic::metadata::errors::InvalidMetadataValue`).
#[verifier::external_type_specification]
#[verifier::external_body]
pub struct ExInvalidMetadataValue(tonic::metadata::errors::InvalidMetadataValue);

/// A refused URI (`http::uri::InvalidUri`).
#[verifier::external_type_specification]
#[verifier::external_body]
pub struct ExInvalidUri(http::uri::InvalidUri);

/// Whether `tonic::transport::Endpoint::from_shared` accepts the string `uri`.
pub uninterp spec fn endpoint_accepts(uri: Seq<char>) -> bool;

/// What an endpoint dials: its target as tonic holds it.
pub uninterp spec fn endpoint_target(e: tonic::transport::Endpoint) -> Seq<char>;

/// The target that `tonic::transport::Endpoint::from_shared` makes of the string
/// `uri`.
pub uninterp spec fn uri_target(uri: Seq<char>) -> Seq<char>;

/// Builds an endpoint from a URI string with `tonic::transport::Endpoint::from_shared`.
///
/// The contract claims that the call succeeds exactly when `endpoint_accepts`
/// holds of the string, and that the endpoint then dials `uri_target` of the
/// string; both are functions of the string alone (tonic parses it as a `unix:`
/// socket path or with `http::Uri`). Every error it returns is of the kind that
/// tonic describes as `invalid URI`. The endpoint's other settings are not stated.
#[verifier::external_body]
pub(crate) fn endpoint_from_shared(uri: String) -> (r: Result<tonic::transport::Endpoint, tonic::transport::Error>)
    ensures
        r is Ok <==> endpoint_accepts(uri@),
        r matches Ok(e) ==> endpoint_target(e) == uri_target(uri@),
        r matches Err(e) ==> transport_error_description(e) == "invalid URI"@,
{
    tonic::transport::Endpoint::from_shared(uri)
}

/// Whether `c` may stand in an ASCII metadata value: `http::HeaderValue::from_str`
/// accepts a byte when it is a tab, or at least 32 and not 127. Every byte of a
/// character at or above 128 is itself at or above 128, so this is the condition
/// on characters.
pub open spec fn is_metadata_char(c: char) -> bool {
    c == '\t' || (32 <= c as u32 && c as u32 != 127)
}

/// Whether every character of `s` may stand in an ASCII metadata value.
pub open spec fn is_metadata_text(s: Seq<char>) -> bool {
    forall|i: int| 0 <= i < s.len() ==> is_metadata_char(#[trigger] s[i])
}

/// Parses `text` as an ASCII metadata value with tonic's
/// `<MetadataValue<Ascii> as FromStr>::from_str`, keeping only whether it succeeded.
///
/// The contract claims what the source of tonic and http shows: the parse
/// succeeds exactly when every character passes `is_metadata_char`.
#[verifier::external_body]
pub(crate) fn check_metadata_text(text: &str) -> (r: Result<(), tonic::metadata::errors::InvalidMetadataValue>)
    ensures
        r is Ok <==> is_metadata_text(text@),
{
    match <tonic::metadata::MetadataValue<tonic::metadata::Ascii> as std::str::FromStr>::from_str(text) {
        Ok(_) => Ok(()),
        Err(e) => Err(e),
    }
}

/// The text that `<http::uri::InvalidUri as Display>::fmt` writes for an error.
pub uninterp spec fn uri_error_text(e: http::uri::InvalidUri) -> Seq<char>;

/// The descriptions that http writes for the kinds of URI errors.
pub open spec fn is_uri_error_description(t: Seq<char>) -> bool {
    ||| t == "invalid uri character"@
    ||| t == "invalid scheme"@
    ||| t == "invalid authority"@
    ||| t == "invalid port"@
    ||| t == "invalid format"@
    ||| t == "scheme missing"@
    ||| t == "authority missing"@
    ||| t == "path missing"@
    ||| t == "path does not start with slash"@
    ||| t == "uri too long"@
    ||| t == "empty string"@
    ||| t == "scheme too long"@
}

/// Writes `e` with `<http::uri::InvalidUri as Display>::fmt`.
///
/// The contract claims what http's source shows: the text is the description of
/// the error's kind, one of `is_uri_error_description`. Which kind an error has
/// is not visible here, so the text is named `uri_error_text`.
#[verifier::external_body]
pub(crate) fn invalid_uri_text(e: &http::uri::InvalidUri) -> (r: String)
    ensures
        r@ == uri_error_text(*e),
        is_uri_error_description(r@),
{
    format!("{e}")
}

/// What tonic writes for a refused metadata value.
pub open spec fn invalid_metadata_description() -> Seq<char> {
    "failed to parse metadata value"@
}

/// Writes `e` with `<InvalidMetadataValue as Display>::fmt` (tonic).
///
/// The contract claims what tonic's source shows: the text is always
/// `failed to parse metadata value`.
#[verifier::external_body]
pub(crate) fn invalid_metadata_text(e: &tonic::metadata::errors::InvalidMetadataValue) -> (r: String)
    ensures
        r@ == invalid_metadata_description(),
{
    format!("{e}")
}

/// The text that `<tonic::transport::Error as Display>::fmt` writes for an error.
pub uninterp spec fn transport_error_description(e: tonic::transport::Error) -> Seq<char>;

/// The descriptions that tonic writes for the kinds of transport errors (with
/// the `channel` feature and without TLS, as built here).
pub open spec fn is_transport_description(t: Seq<char>) -> bool {
    ||| t == "transport error"@
    ||| t == "invalid URI"@
    ||| t == "user agent is not a valid header value"@
}

/// Writes `e` with `<tonic::transport::Error as Display>::fmt`.
///
/// The contract claims what tonic's source shows: the text is the description of
/// the error's kind, one of `is_transport_description`, named
/// `transport_error_description`; the error's source is not written.
#[verifier::external_body]
pub(crate) fn transport_error_text(e: &tonic::transport::Error) -> (r: String)
    ensures
        r@ == transport_error_description(*e),
        is_transport_description(r@),
{
    format!("{e}")
}

} // verus!
