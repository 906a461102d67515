//! HTTP statuses of the board APIs, as their errors show them.

use vstd::prelude::*;

use crate::text::{decimal, decimal_string, push_str};

verus! {

broadcast use vstd::string::group_string_axioms;

/// The reason phrase that `http::StatusCode::canonical_reason` gives for
/// `code`, where it knows one.
pub uninterp spec fn canonical_reason(code: u16) -> Option<Seq<char>>;

/// `StatusCode::canonical_reason` of the status `code`.
#[verifier::external_body]
fn reason_phrase(code: u16) -> (r: Option<&'static str>)
    requires
        100 <= code <= 999,
    ensures
        match r {
            Some(t) => canonical_reason(code) == Some(t@),
            None => canonical_reason(code) is None,
        },
{
    match reqwest::StatusCode::from_u16(code) {
        Ok(s) => s.canonical_reason(),
        Err(_) => None,
    }
}

/// How a status shows as text: its number and its reason phrase.
pub open spec fn status_display(code: u16) -> Seq<char> {
    decimal(code as nat) + " "@ + match canonical_reason(code) {
        Some(t) => t,
        None => "<unknown status code>"@,
    }
}

/// The status as text (see `status_display`).
pub fn status_text(code: u16) -> (r: String)
    requires
        100 <= code <= 999,
    ensures
        r@ == status_display(code),
{
    let mut out = decimal_string(code as u64);
    push_str(&mut out, " ");
    match reason_phrase(code) {
        Some(t) => push_str(&mut out, t),
        None => push_str(&mut out, "<unknown status code>"),
    }
    out
}

} // verus!
