//! HTTP status codes as the aggregator reads them.

use vstd::prelude::*;
use vstd::string::*;

verus! {

/// The text that the `http` crate displays for the status code `code`: the
/// number, a space, and the standard reason phrase of that code.
pub uninterp spec fn status_text(code: u16) -> Seq<char>;

/// Asks `http::StatusCode` for its display text. `StatusCode::from_u16`
/// accepts exactly the codes from 100 to 999, and the text displayed
/// depends on the code alone; for the codes it refuses nothing is
/// returned.
#[verifier::external_body]
fn display_text(code: u16) -> (text: Option<String>)
    ensures
        text is Some <==> 100 <= code < 1000,
        text matches Some(t) ==> t@ == status_text(code),
{
    match http::StatusCode::from_u16(code) {
        Ok(status) => Some(status.to_string()),
        Err(_) => None,
    }
}

/// A status code: a number from 100 to 999.
#[derive(Copy, Clone, Debug)]
pub struct StatusCode {
    code: u16,
}

impl View for StatusCode {
    type V = u16;

    closed spec fn view(&self) -> u16 {
        self.code
    }
}

impl StatusCode {
    /// Every status code lies between 100 and 999.
    #[verifier::type_invariant]
    pub closed spec fn inv(&self) -> bool {
        100 <= self.code < 1000
    }

    /// Whether a code in the range of the successes, 200 to 299.
    pub open spec fn success(code: u16) -> bool {
        200 <= code < 300
    }

    /// The status code `code`, if it is one.
    pub fn from_u16(code: u16) -> (status: Option<StatusCode>)
        ensures
            status is Some <==> 100 <= code < 1000,
            status matches Some(s) ==> s@ == code,
    {
        if 100 <= code && code < 1000 {
            Some(StatusCode { code })
        } else {
            None
        }
    }

    /// The number of the code.
    pub fn as_u16(&self) -> (code: u16)
        ensures
            code == self@,
            100 <= code < 1000,
    {
        proof {
            use_type_invariant(self);
        }
        self.code
    }

    /// Whether the code is within 200 to 299.
    pub fn is_success(&self) -> (b: bool)
        ensures
            b == StatusCode::success(self@),
    {
        200 <= self.code && self.code < 300
    }

    /// The code as text: its number and reason phrase.
    pub fn to_string(&self) -> (text: String)
        ensures
            text@ == status_text(self@),
    {
        proof {
            use_type_invariant(self);
        }
        match display_text(self.code) {
            Some(text) => text,
            None => String::new(),
        }
    }
}

} // verus!
