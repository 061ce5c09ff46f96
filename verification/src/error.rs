//! The failure kinds the library reports.

use vstd::prelude::*;

verus! {

/// What went wrong with a session operation or a page parse.
///
/// `Transport` stands for a failed request/response cycle and is produced by
/// the code driving the network, never by the parsers. `MissingField` is a
/// page that lacks an expected table or cell; `SummaryShape` a mutation
/// summary without exactly four value cells; `InvalidDate` a date text that
/// cannot be read as a day/month/year range.
#[derive(Clone, Copy, Debug, PartialEq, Eq, Structural)]
pub enum Error {
    Transport,
    MissingField,
    SummaryShape,
    InvalidDate,
}

impl Error {
    /// A short display text for the failure.
    pub fn text(&self) -> (r: &'static str)
        ensures
            (*self is Transport ==> r@ == "transport failure"@) && (*self is MissingField ==> r@
                == "missing field"@) && (*self is SummaryShape ==> r@
                == "summary shape mismatch"@) && (*self is InvalidDate ==> r@
                == "invalid date"@),
    {
        match self {
            Error::Transport => "transport failure",
            Error::MissingField => "missing field",
            Error::SummaryShape => "summary shape mismatch",
            Error::InvalidDate => "invalid date",
        }
    }
}

} // verus!
