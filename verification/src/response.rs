//! The normalized result of one request, and the failure that stands for a
//! request that never got an answer.

use crate::text::{pairs_view, text_view};
use vstd::prelude::*;

verus! {

/// Status code given to a failed request that reported none of its own.
pub const SENTINEL_STATUS: u16 = 500;

/// Status text of a code that has no standard reason phrase.
pub const UNKNOWN_STATUS: &'static str = "Unknown";

/// The standard reason phrase of an HTTP status code, where it has one.
pub uninterp spec fn reason_phrase(code: u16) -> Option<Seq<char>>;

/// `reqwest::StatusCode::from_u16` followed by `canonical_reason`: the
/// phrase registered for `code`. Codes outside 100..=999 are no status
/// codes and have none.
#[verifier::external_body]
fn canonical_reason(code: u16) -> (r: Option<String>)
    ensures
        text_view(r) == reason_phrase(code),
        !(100 <= code <= 999) ==> r is None,
{
    match reqwest::StatusCode::from_u16(code) {
        Ok(status) => status.canonical_reason().map(|phrase| phrase.to_string()),
        Err(_) => None,
    }
}

/// The text shown beside a status code: its reason phrase, or
/// [`UNKNOWN_STATUS`].
pub open spec fn status_text(code: u16) -> Seq<char> {
    match reason_phrase(code) {
        Some(phrase) => phrase,
        None => UNKNOWN_STATUS@,
    }
}

/// The text shown for a status whose reason phrase is `phrase`: the
/// phrase, or [`UNKNOWN_STATUS`] where there is none.
pub fn status_text_from(phrase: Option<String>) -> (r: String)
    ensures
        r@ == match phrase {
            Some(text) => text@,
            None => UNKNOWN_STATUS@,
        },
{
    match phrase {
        Some(text) => text,
        None => String::from_str(UNKNOWN_STATUS),
    }
}

/// Computes [`status_text`].
pub fn status_text_of(code: u16) -> (r: String)
    ensures
        r@ == status_text(code),
{
    status_text_from(canonical_reason(code))
}

/// Why a request got no answer.
#[derive(Clone, Copy, Debug, PartialEq, Eq, Structural)]
pub enum TransportKind {
    Connect,
    Timeout,
    Tls,
    Dns,
    Other,
}

/// A request that failed in transit. It still carries what is known of it,
/// so that it can stand in a batch as an outcome like any other.
#[derive(Clone, Copy, Debug, PartialEq, Eq, Structural)]
pub struct TransportError {
    pub kind: TransportKind,
    /// The status code that came with the failure, if one did.
    pub status: Option<u16>,
    /// Milliseconds from just before the send to the failure.
    pub elapsed: u64,
}

impl TransportError {
    /// The status code under which the failure is counted: its own, or
    /// [`SENTINEL_STATUS`].
    pub open spec fn spec_status_code(&self) -> u16 {
        match self.status {
            Some(code) => code,
            None => SENTINEL_STATUS,
        }
    }

    /// Computes [`Self::spec_status_code`].
    #[verifier::when_used_as_spec(spec_status_code)]
    pub fn status_code(&self) -> (r: u16)
        ensures
            r == self.spec_status_code(),
    {
        match self.status {
            Some(code) => code,
            None => SENTINEL_STATUS,
        }
    }
}

/// What came back for one request that was answered, before it is given its
/// place in a batch. A header value that is no visible ASCII is `None`.
#[derive(Debug, Clone, PartialEq, Eq)]
pub struct Received {
    pub status_code: u16,
    pub headers: Vec<(String, Option<String>)>,
    pub body: Option<String>,
    /// Milliseconds from just before the send to the end of the body.
    pub duration: u64,
}

/// The outcome of one request.
#[derive(Debug, Clone, PartialEq, Eq)]
pub struct PyResponse {
    /// Status text, see [`status_text`].
    pub status: String,
    pub status_code: u16,
    /// Header pairs in the order received; a name may occur more than once.
    pub headers: Vec<(String, String)>,
    /// `None` where the request failed in transit.
    pub body: Option<String>,
    /// Milliseconds the request took.
    pub duration: u64,
    /// Position of the request in the batch it belongs to.
    pub index: u32,
}

/// An outcome as plain values.
pub struct Outcome {
    pub status: Seq<char>,
    pub status_code: u16,
    pub headers: Seq<(Seq<char>, Seq<char>)>,
    pub body: Option<Seq<char>>,
    pub duration: u64,
    pub index: u32,
}

impl View for PyResponse {
    type V = Outcome;

    open spec fn view(&self) -> Outcome {
        Outcome {
            status: self.status@,
            status_code: self.status_code,
            headers: pairs_view(self.headers@),
            body: text_view(self.body),
            duration: self.duration,
            index: self.index,
        }
    }
}

/// Header pairs as received, with the empty string for each value that
/// could not be read as text.
pub open spec fn readable_headers(raw: Seq<(String, Option<String>)>) -> Seq<
    (Seq<char>, Seq<char>),
> {
    Seq::new(
        raw.len(),
        |i: int|
            (
                raw[i].0@,
                match raw[i].1 {
                    Some(value) => value@,
                    None => Seq::<char>::empty(),
                },
            ),
    )
}

/// The outcome that an answered request becomes at position `index`.
pub open spec fn outcome_of_answer(index: u32, answer: Received) -> Outcome {
    Outcome {
        status: status_text(answer.status_code),
        status_code: answer.status_code,
        headers: readable_headers(answer.headers@),
        body: text_view(answer.body),
        duration: answer.duration,
        index,
    }
}

/// The outcome that a failed request becomes at position `index`: counted
/// under the failure's status code, without headers or body.
pub open spec fn outcome_of_failure(index: u32, failure: TransportError) -> Outcome {
    Outcome {
        status: status_text(failure.spec_status_code()),
        status_code: failure.spec_status_code(),
        headers: Seq::empty(),
        body: None,
        duration: failure.elapsed,
        index,
    }
}

/// The outcome of a request at position `index`, answered or not.
pub open spec fn outcome_of(index: u32, result: Result<Received, TransportError>) -> Outcome {
    match result {
        Ok(answer) => outcome_of_answer(index, answer),
        Err(failure) => outcome_of_failure(index, failure),
    }
}

impl PyResponse {
    /// The outcome of an answered request.
    pub fn from_answer(index: u32, answer: Received) -> (r: Self)
        ensures
            r@ == outcome_of_answer(index, answer),
    {
        let Received { status_code, headers: raw, body, duration } = answer;
        let mut headers: Vec<(String, String)> = Vec::new();
        let mut i: usize = 0;
        while i < raw.len()
            invariant
                i <= raw.len(),
                headers.len() == i,
                forall|k: int|
                    0 <= k < i ==> (#[trigger] headers[k]).0@ == readable_headers(raw@)[k].0
                        && headers[k].1@ == readable_headers(raw@)[k].1,
            decreases raw.len() - i,
        {
            let name = raw[i].0.clone();
            let value = match &raw[i].1 {
                Some(text) => text.clone(),
                None => String::new(),
            };
            headers.push((name, value));
            i += 1;
        }
        assert(pairs_view(headers@) =~= readable_headers(raw@));
        PyResponse {
            status: status_text_of(status_code),
            status_code,
            headers,
            body,
            duration,
            index,
        }
    }

    /// The outcome that stands for a request that failed in transit.
    pub fn from_failure(index: u32, failure: TransportError) -> (r: Self)
        ensures
            r@ == outcome_of_failure(index, failure),
    {
        let status_code = failure.status_code();
        let headers: Vec<(String, String)> = Vec::new();
        assert(pairs_view(headers@) =~= Seq::<(Seq<char>, Seq<char>)>::empty());
        PyResponse {
            status: status_text_of(status_code),
            status_code,
            headers,
            body: None,
            duration: failure.elapsed,
            index,
        }
    }

    /// The outcome of one execution, whichever way it ended. A failure never
    /// is an error here: it becomes an outcome.
    pub fn settle(index: u32, result: Result<Received, TransportError>) -> (r: Self)
        ensures
            r@ == outcome_of(index, result),
    {
        match result {
            Ok(answer) => PyResponse::from_answer(index, answer),
            Err(failure) => PyResponse::from_failure(index, failure),
        }
    }

    /// An owned copy, equal field by field.
    pub fn replicate(&self) -> (r: Self)
        ensures
            r@ == self@,
    {
        PyResponse {
            status: self.status.clone(),
            status_code: self.status_code,
            headers: crate::text::copy_pairs(&self.headers),
            body: crate::text::copy_text(&self.body),
            duration: self.duration,
            index: self.index,
        }
    }
}

} // verus!
