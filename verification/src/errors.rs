//! Error types of the library. Every fatal condition carries the offending
//! text, so a caller can render a one-line descriptive message.

use vstd::prelude::*;

verus! {

/// A script syntax error, detected at parse time; each variant carries the
/// offending token or line.
#[derive(Debug)]
pub enum ScriptError {
    /// The literal `<connect>` occurs more than once in the script.
    MultipleConnectHeaders,
    /// The script does not begin with a `<connect>` block; searching the whole
    /// file for one is not supported.
    MissingConnectHeader,
    /// A `port=` value that is not a valid port number.
    InvalidPort(Vec<u8>),
    /// A `key=value` line inside the connect block with an unknown key.
    InvalidParameter(Vec<u8>),
    /// A bare token inside the connect block other than `unsafe`.
    InvalidOption(Vec<u8>),
    /// The connect block ended without a non-empty `host=`.
    EmptyHost,
    /// A `key=value` line inside a query block with an unknown key.
    UnknownKey(Vec<u8>),
    /// An assertion line that does not split into exactly three tokens; the
    /// line and the number of tokens it produced.
    InvalidExpression(Vec<u8>, usize),
    /// An assertion operator symbol outside the recognized set.
    UnknownSymbol(Vec<u8>),
}

/// The spec-level shape of a [`ScriptError`].
pub enum ScriptErrorV {
    MultipleConnectHeaders,
    MissingConnectHeader,
    InvalidPort(Seq<u8>),
    InvalidParameter(Seq<u8>),
    InvalidOption(Seq<u8>),
    EmptyHost,
    UnknownKey(Seq<u8>),
    InvalidExpression(Seq<u8>, nat),
    UnknownSymbol(Seq<u8>),
}

impl View for ScriptError {
    type V = ScriptErrorV;

    open spec fn view(&self) -> ScriptErrorV {
        match self {
            ScriptError::MultipleConnectHeaders => ScriptErrorV::MultipleConnectHeaders,
            ScriptError::MissingConnectHeader => ScriptErrorV::MissingConnectHeader,
            ScriptError::InvalidPort(t) => ScriptErrorV::InvalidPort(t@),
            ScriptError::InvalidParameter(t) => ScriptErrorV::InvalidParameter(t@),
            ScriptError::InvalidOption(t) => ScriptErrorV::InvalidOption(t@),
            ScriptError::EmptyHost => ScriptErrorV::EmptyHost,
            ScriptError::UnknownKey(t) => ScriptErrorV::UnknownKey(t@),
            ScriptError::InvalidExpression(t, n) => ScriptErrorV::InvalidExpression(t@, *n as nat),
            ScriptError::UnknownSymbol(t) => ScriptErrorV::UnknownSymbol(t@),
        }
    }
}

/// A wire-protocol or content error, fatal to the request it struck.
#[derive(Debug)]
pub enum HttpError {
    /// A request body was declared empty on a method that must carry one; the
    /// method name rides along.
    EmptyBody(Vec<u8>),
    /// The raw response holds no blank-line boundary between head and body.
    MalformedResponse,
    /// The response head has no lines at all.
    EmptyResponse,
    /// The first head line has no second whitespace-separated token.
    InvalidStatusLine,
    /// The status token is not a number a `u16` can hold.
    InvalidStatusCode,
    /// The response carries no `content-type` header.
    MissingContentType,
    /// A MIME type outside the supported set; the type rides along.
    UnsupportedContentType(Vec<u8>),
    /// The body declared `application/json` but does not parse as JSON; the
    /// decoder's message rides along.
    MalformedJson(Vec<u8>),
    /// A chunk-size line that is not a hexadecimal numeral.
    InvalidChunkSize(Vec<u8>),
}

/// The spec-level shape of an [`HttpError`].
pub enum HttpErrorV {
    EmptyBody(Seq<u8>),
    MalformedResponse,
    EmptyResponse,
    InvalidStatusLine,
    InvalidStatusCode,
    MissingContentType,
    UnsupportedContentType(Seq<u8>),
    MalformedJson(Seq<u8>),
    InvalidChunkSize(Seq<u8>),
}

impl View for HttpError {
    type V = HttpErrorV;

    open spec fn view(&self) -> HttpErrorV {
        match self {
            HttpError::EmptyBody(t) => HttpErrorV::EmptyBody(t@),
            HttpError::MalformedResponse => HttpErrorV::MalformedResponse,
            HttpError::EmptyResponse => HttpErrorV::EmptyResponse,
            HttpError::InvalidStatusLine => HttpErrorV::InvalidStatusLine,
            HttpError::InvalidStatusCode => HttpErrorV::InvalidStatusCode,
            HttpError::MissingContentType => HttpErrorV::MissingContentType,
            HttpError::UnsupportedContentType(t) => HttpErrorV::UnsupportedContentType(t@),
            HttpError::MalformedJson(t) => HttpErrorV::MalformedJson(t@),
            HttpError::InvalidChunkSize(t) => HttpErrorV::InvalidChunkSize(t@),
        }
    }
}

} // verus!
