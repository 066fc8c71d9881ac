//! Error types, and the HTTP status code that each error maps to.

use vstd::prelude::*;

use crate::auth::AuthenticationScheme;

verus! {

/// The error type of this library.
#[derive(Debug)]
pub enum Error {
    /// An error that carries its own HTTP status code and a message.
    Status(u16, &'static str),
    /// The HTTP method was not recognized.
    HttpMethodUnrecognized(String),
    /// A number is not a valid HTTP status code.
    StatusCodeInvalid(u16),
    /// A header could not be parsed or negotiated.
    Header(HeaderError),
}

/// A specialized `Result` type for this library.
pub type Result<T> = core::result::Result<T, Error>;

/// Errors that come from parsing or negotiating headers.
#[derive(Debug)]
pub enum HeaderError {
    SpecificityInvalid,
    NameInvalid(&'static str),
    ValueInvalid(&'static str),
    DateInvalid(DateError),
    TransferEncodingUnnegotiable,
    TransferEncodingInvalidEncoding(EncodingError),
    TraceContextInvalid(&'static str),
    ServerTimingInvalid(&'static str),
    ServerTimingInvalidMetric(&'static str),
    TimingAllowOriginInvalidUrl,
    ForwardedInvalid(&'static str),
    SourceMapInvalidUrl,
    SourceMapInvalidBaseUrl,
    RefererInvalidUrl,
    RefererInvalidBaseUrl,
    ContentTypeInvalidMediaType(MediaTypeError),
    ContentLengthInvalid,
    AcceptInvalidMediaType(MediaTypeError),
    AcceptUnnegotiable,
    AcceptEncodingInvalidEncoding(EncodingError),
    AcceptEncodingUnnegotiable,
    ETagInvalid,
    AgeInvalid,
    ClearSiteDataInvalid,
    CacheControlInvalid,
    AuthorizationInvalid(AuthError),
    WWWAuthenticateInvalid(&'static str),
    ContentLocationInvalidUrl,
    ContentLocationInvalidBaseUrl,
    ExpectInvalid,
    StrictTransportSecurityInvalid(&'static str),
}

/// Errors of the `Authorization` family of headers.
#[derive(Debug)]
pub enum AuthError {
    CredentialsInvalid(AuthenticationScheme, &'static str),
    SchemeUnrecognized(String),
    SchemeMissing,
    CredentialsMissing,
    SchemeUnexpected(AuthenticationScheme, String),
    RealmMissing,
}

/// Errors of HTTP dates.
#[derive(Debug)]
pub enum DateError {
    FormatInvalid(&'static str),
    Unparseable,
    OutOfBounds,
    NotASCII,
    SecondsInvalid,
    MinutesInvalid,
    HourInvalid,
    DayInvalid,
    MonthInvalid,
    YearInvalid,
    WeekdayInvalid,
}

/// Errors of media types.
#[derive(Debug)]
pub enum MediaTypeError {
    Parse(&'static str),
    ParamName(&'static str),
    Proposal(&'static str),
    Sniff,
}

/// Errors of content encodings.
#[derive(Debug)]
pub enum EncodingError {
    Parse(&'static str),
    Proposal(&'static str),
}

/// The status code associated with a header error, where one logically exists.
pub open spec fn header_error_status(e: HeaderError) -> Option<u16> {
    match e {
        HeaderError::SpecificityInvalid => Some(400),
        HeaderError::DateInvalid(_) => Some(400),
        HeaderError::TransferEncodingUnnegotiable => Some(406),
        HeaderError::TransferEncodingInvalidEncoding(_) => Some(400),
        HeaderError::TraceContextInvalid(_) => Some(400),
        HeaderError::ServerTimingInvalid(_) => Some(400),
        HeaderError::TimingAllowOriginInvalidUrl => Some(400),
        HeaderError::ForwardedInvalid(_) => Some(400),
        HeaderError::ContentTypeInvalidMediaType(_) => Some(400),
        HeaderError::ContentLengthInvalid => Some(400),
        HeaderError::AcceptInvalidMediaType(_) => Some(400),
        HeaderError::AcceptUnnegotiable => Some(406),
        HeaderError::AcceptEncodingInvalidEncoding(_) => Some(400),
        HeaderError::AcceptEncodingUnnegotiable => Some(406),
        HeaderError::ETagInvalid => Some(400),
        HeaderError::AgeInvalid => Some(400),
        HeaderError::CacheControlInvalid => Some(400),
        HeaderError::AuthorizationInvalid(_) => Some(400),
        HeaderError::WWWAuthenticateInvalid(_) => Some(400),
        HeaderError::ExpectInvalid => Some(400),
        HeaderError::StrictTransportSecurityInvalid(_) => Some(400),
        _ => None,
    }
}

/// The status code associated with an error, where one logically exists.
pub open spec fn error_status(e: Error) -> Option<u16> {
    match e {
        Error::Status(s, _) => Some(s),
        Error::Header(h) => header_error_status(h),
        _ => None,
    }
}

/// Law: a header that is malformed is the client's error, `400 Bad
/// Request`; a header whose request cannot be met by any representation is
/// `406 Not Acceptable`; the other header errors (bad names, bad values, URL
/// errors, unknown metrics, `Clear-Site-Data`) carry no status. An error
/// built with a status carries that status.
pub proof fn law_header_error_status(e: HeaderError, s: u16, m: &'static str)
    ensures
        header_error_status(e) == Some(400u16) <==> (e is SpecificityInvalid || e is DateInvalid || e is TransferEncodingInvalidEncoding || e is TraceContextInvalid || e is ServerTimingInvalid || e is TimingAllowOriginInvalidUrl || e is ForwardedInvalid || e is ContentTypeInvalidMediaType || e is ContentLengthInvalid || e is AcceptInvalidMediaType || e is AcceptEncodingInvalidEncoding || e is ETagInvalid || e is AgeInvalid || e is CacheControlInvalid || e is AuthorizationInvalid || e is WWWAuthenticateInvalid || e is ExpectInvalid || e is StrictTransportSecurityInvalid),
        header_error_status(e) == Some(406u16) <==> (e is TransferEncodingUnnegotiable || e is AcceptUnnegotiable || e is AcceptEncodingUnnegotiable),
        header_error_status(e) is Some ==> (header_error_status(e) == Some(400u16) || header_error_status(e) == Some(406u16)),
        error_status(Error::Status(s, m)) == Some(s),
        error_status(Error::Header(e)) == header_error_status(e),
{
}

impl HeaderError {
    /// Maps this error to its associated HTTP status code, if one logically exists.
    ///
    /// `None` is returned in cases where a default should be used.
    pub fn associated_status_code(&self) -> (r: Option<u16>)
        ensures
            r == header_error_status(*self),
    {
        match self {
            HeaderError::SpecificityInvalid => Some(400),
            HeaderError::DateInvalid(_) => Some(400),
            HeaderError::TransferEncodingUnnegotiable => Some(406),
            HeaderError::TransferEncodingInvalidEncoding(_) => Some(400),
            HeaderError::TraceContextInvalid(_) => Some(400),
            HeaderError::ServerTimingInvalid(_) => Some(400),
            HeaderError::TimingAllowOriginInvalidUrl => Some(400),
            HeaderError::ForwardedInvalid(_) => Some(400),
            HeaderError::ContentTypeInvalidMediaType(_) => Some(400),
            HeaderError::ContentLengthInvalid => Some(400),
            HeaderError::AcceptInvalidMediaType(_) => Some(400),
            HeaderError::AcceptUnnegotiable => Some(406),
            HeaderError::AcceptEncodingInvalidEncoding(_) => Some(400),
            HeaderError::AcceptEncodingUnnegotiable => Some(406),
            HeaderError::ETagInvalid => Some(400),
            HeaderError::AgeInvalid => Some(400),
            HeaderError::CacheControlInvalid => Some(400),
            HeaderError::AuthorizationInvalid(_) => Some(400),
            HeaderError::WWWAuthenticateInvalid(_) => Some(400),
            HeaderError::ExpectInvalid => Some(400),
            HeaderError::StrictTransportSecurityInvalid(_) => Some(400),
            _ => None,
        }
    }
}

impl Error {
    /// Maps this error to its associated HTTP status code, if one logically exists.
    pub fn associated_status_code(&self) -> (r: Option<u16>)
        ensures
            r == error_status(*self),
    {
        match self {
            Error::Status(s, _) => Some(*s),
            Error::Header(h) => h.associated_status_code(),
            _ => None,
        }
    }

    /// The HTTP status code of this error: its associated one, else 500.
    pub fn status(&self) -> (r: u16)
        ensures
            r == match error_status(*self) {
                Some(s) => s,
                None => 500u16,
            },
    {
        match self.associated_status_code() {
            Some(s) => s,
            None => 500,
        }
    }
}

} // verus!
