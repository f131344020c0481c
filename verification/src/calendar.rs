//! The request for a calendar, and how the two ways of asking for a
//! treatment of long-term occurrences are settled into one.

use crate::error::FormParseError;
use crate::error::FormParseErrorView;
use crate::error::HandlerError;
use crate::error::Status;
use crate::error::bad_request_text;
use vstd::prelude::*;
use vstd::string::*;

verus! {

/// What becomes of occurrences that run over many days.
#[derive(Clone, Copy, Debug, PartialEq, Eq, Structural)]
pub enum LongtermHandling {
    /// Each stays one entry, as long as it is.
    Preserve,
    /// Each becomes two entries, for its first day and for its last.
    Split,
    /// They are merged into entries that do not overlap.
    Aggregate,
}

/// A request for the calendar of one user.
#[derive(Debug)]
pub struct CalendarRequest {
    pub id: u64,
    pub language: String,
    pub after: Option<String>,
    pub longterm: LongtermHandling,
}

/// The body of the refusal of a request that carries both parameters.
pub open spec fn both_given_text() -> Seq<char> {
    "Bad request: Please drop the deprecated 'split' parameter when using 'longterm'.\n"@
}

/// What a request asks for, given its parameters `split` and `longterm`, each
/// absent, read, or present with a value that could not be read: `Preserve`
/// if neither is there; what the one that is there says, `split` standing for
/// `Split` when true and for `Preserve` when false; the body of a refusal if
/// that one could not be read, or if both are there.
pub open spec fn chosen_handling(
    split: Option<Result<bool, String>>,
    longterm: Option<Result<LongtermHandling, String>>,
) -> Result<LongtermHandling, Seq<char>> {
    match (split, longterm) {
        (None, None) => Ok(LongtermHandling::Preserve),
        (None, Some(Ok(handling))) => Ok(handling),
        (None, Some(Err(value))) => Err(
            bad_request_text(FormParseErrorView::BadValue("longterm"@, value@)),
        ),
        (Some(Ok(true)), None) => Ok(LongtermHandling::Split),
        (Some(Ok(false)), None) => Ok(LongtermHandling::Preserve),
        (Some(Err(value)), None) => Err(
            bad_request_text(FormParseErrorView::BadValue("split"@, value@)),
        ),
        (Some(_), Some(_)) => Err(both_given_text()),
    }
}

/// The request of user `id` in language `language`, for what follows `after`,
/// with the treatment of long-term occurrences that `split` and `longterm`
/// settle on; or the refusal of the two, which is a bad request.
pub fn serve(
    id: u64,
    language: String,
    after: Option<String>,
    split: Option<Result<bool, String>>,
    longterm: Option<Result<LongtermHandling, String>>,
) -> (request: Result<CalendarRequest, HandlerError>)
    ensures
        match chosen_handling(split, longterm) {
            Ok(handling) => request is Ok && request->Ok_0.id == id && request->Ok_0.language
                == language && request->Ok_0.after == after && request->Ok_0.longterm
                == handling,
            Err(text) => request is Err && request->Err_0.status == Status::BadRequest
                && request->Err_0.text@ == text,
        },
{
    let longterm = match (split, longterm) {
        (None, None) => LongtermHandling::Preserve,
        (None, Some(Ok(longterm_match))) => longterm_match,
        (None, Some(Err(err))) => {
            return Err(
                HandlerError::from(FormParseError::BadValue(String::from_str("longterm"), err)),
            );
        },
        (Some(Ok(true)), None) => LongtermHandling::Split,
        (Some(Ok(false)), None) => LongtermHandling::Preserve,
        (Some(Err(err)), None) => {
            return Err(HandlerError::from(FormParseError::BadValue(String::from_str("split"), err)));
        },
        (Some(_), Some(_)) => {
            return Err(
                HandlerError::new(
                    Status::BadRequest,
                    String::from_str(
                        "Bad request: Please drop the deprecated 'split' parameter when using 'longterm'.\n",
                    ),
                ),
            );
        },
    };
    Ok(CalendarRequest { id, language, after, longterm })
}

} // verus!
