//! The error that a request handler answers with.

use vstd::prelude::*;
use vstd::string::*;

verus! {

/// The status of an answer that is an error.
#[derive(Clone, Copy, Debug, PartialEq, Eq, Structural)]
pub enum Status {
    BadRequest,
    InternalServerError,
}

impl Status {
    /// The status code.
    pub open spec fn code_of(self) -> int {
        match self {
            Status::BadRequest => 400,
            Status::InternalServerError => 500,
        }
    }

    /// The status code.
    pub fn code(self) -> (code: u16)
        ensures
            code == self.code_of(),
    {
        match self {
            Status::BadRequest => 400,
            Status::InternalServerError => 500,
        }
    }
}

/// Why the parameters of a request could not be read.
#[derive(Debug)]
pub enum FormParseError {
    /// The parameter named first has the value named second, which does not
    /// read as what the parameter has to be.
    BadValue(String, String),
    /// The parameter of this name is not there.
    Missing(String),
}

/// What a `FormParseError` holds, as plain text.
pub enum FormParseErrorView {
    BadValue(Seq<char>, Seq<char>),
    Missing(Seq<char>),
}

impl View for FormParseError {
    type V = FormParseErrorView;

    open spec fn view(&self) -> FormParseErrorView {
        match *self {
            FormParseError::BadValue(key, value) => FormParseErrorView::BadValue(key@, value@),
            FormParseError::Missing(key) => FormParseErrorView::Missing(key@),
        }
    }
}

/// What the formatter `{:?}` writes for the string `s`: the string between
/// double quotes, with the characters that need it escaped.
pub uninterp spec fn debug_text(s: Seq<char>) -> Seq<char>;

/// The `Debug` form of a string slice, as `format!` writes it for `{:?}`.
#[verifier::external_body]
fn debug_string(s: &str) -> (text: String)
    ensures
        text@ == debug_text(s@),
{
    format!("{:?}", s)
}

/// A raw string as it is shown when a parse error is shown.
pub open spec fn raw_text(s: Seq<char>) -> Seq<char> {
    "RawStr("@ + debug_text(s) + ")"@
}

/// A parse error as it is shown in the body of an answer.
pub open spec fn shown(error: FormParseErrorView) -> Seq<char> {
    match error {
        FormParseErrorView::BadValue(key, value) => "BadValue("@ + raw_text(key) + ", "@
            + raw_text(value) + ")"@,
        FormParseErrorView::Missing(key) => "Missing("@ + raw_text(key) + ")"@,
    }
}

/// The body of the answer to a request whose parameters could not be read.
pub open spec fn bad_request_text(error: FormParseErrorView) -> Seq<char> {
    "Bad request: "@ + shown(error)
        + " (see https://api.rocket.rs/v0.4/rocket/request/enum.FormParseError.html)\n"@
}

/// An answer that is an error: a status and the text of the body.
#[derive(Debug)]
pub struct HandlerError {
    pub status: Status,
    pub text: String,
}

fn raw(s: &str) -> (text: String)
    ensures
        text@ == raw_text(s@),
{
    let mut text = String::from_str("RawStr(");
    text.append(debug_string(s).as_str());
    text.append(")");
    text
}

impl HandlerError {
    /// The error with status `status` and body `text`.
    pub fn new(status: Status, text: String) -> (error: HandlerError)
        ensures
            error.status == status,
            error.text == text,
    {
        HandlerError { status, text }
    }

    /// The answer to a request whose parameters could not be read: a bad
    /// request, with the parse error shown in the body.
    pub fn from(parse_error: FormParseError) -> (error: HandlerError)
        ensures
            error.status == Status::BadRequest,
            error.text@ == bad_request_text(parse_error@),
    {
        let mut text = String::from_str("Bad request: ");
        match &parse_error {
            FormParseError::BadValue(key, value) => {
                text.append("BadValue(");
                text.append(raw(key.as_str()).as_str());
                text.append(", ");
                text.append(raw(value.as_str()).as_str());
                text.append(")");
            },
            FormParseError::Missing(key) => {
                text.append("Missing(");
                text.append(raw(key.as_str()).as_str());
                text.append(")");
            },
        }
        text.append(" (see https://api.rocket.rs/v0.4/rocket/request/enum.FormParseError.html)\n");
        HandlerError::new(Status::BadRequest, text)
    }

    /// The answer to a failure inside the handler: the cause is not told.
    pub fn internal() -> (error: HandlerError)
        ensures
            error.status == Status::InternalServerError,
            error.text@ == "Something went wrong."@,
    {
        HandlerError::new(Status::InternalServerError, String::from_str("Something went wrong."))
    }
}

} // verus!
