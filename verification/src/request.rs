//! The request template: one HTTP call, described once and replayed as it
//! is for every repetition.
//!
//! A template is checked when it is made. What a script hands over is read
//! by the caller into [`RequestFields`]; what is wrong with it (an unknown
//! method, a URL that does not parse, a header that HTTP does not allow) is
//! an error here, before anything is sent.

use crate::text::{copy_bytes, copy_pairs, pairs_view, same_text};
use vstd::prelude::*;

verus! {

/// The timeout of a template that names none, in milliseconds.
pub const DEFAULT_TIMEOUT: u64 = 100_000;

/// The method of a request.
#[derive(Clone, Copy, Debug, PartialEq, Eq, Structural)]
pub enum PyMethod {
    Get,
    Head,
    Post,
    Put,
    Delete,
    Patch,
}

/// The method that `text` names, in capitals and nothing else.
pub open spec fn method_named(text: Seq<char>) -> Option<PyMethod> {
    if text == "GET"@ {
        Some(PyMethod::Get)
    } else if text == "HEAD"@ {
        Some(PyMethod::Head)
    } else if text == "POST"@ {
        Some(PyMethod::Post)
    } else if text == "PUT"@ {
        Some(PyMethod::Put)
    } else if text == "DELETE"@ {
        Some(PyMethod::Delete)
    } else if text == "PATCH"@ {
        Some(PyMethod::Patch)
    } else {
        None
    }
}

impl PyMethod {
    /// The name of the method as it stands in a request line.
    pub open spec fn spec_name(self) -> Seq<char> {
        match self {
            PyMethod::Get => "GET"@,
            PyMethod::Head => "HEAD"@,
            PyMethod::Post => "POST"@,
            PyMethod::Put => "PUT"@,
            PyMethod::Delete => "DELETE"@,
            PyMethod::Patch => "PATCH"@,
        }
    }

    /// Computes [`Self::spec_name`].
    pub fn name(self) -> (r: &'static str)
        ensures
            r@ == self.spec_name(),
    {
        match self {
            PyMethod::Get => "GET",
            PyMethod::Head => "HEAD",
            PyMethod::Post => "POST",
            PyMethod::Put => "PUT",
            PyMethod::Delete => "DELETE",
            PyMethod::Patch => "PATCH",
        }
    }

    /// Computes [`method_named`].
    pub fn parse(text: &str) -> (r: Option<PyMethod>)
        ensures
            r == method_named(text@),
    {
        if same_text(text, "GET") {
            Some(PyMethod::Get)
        } else if same_text(text, "HEAD") {
            Some(PyMethod::Head)
        } else if same_text(text, "POST") {
            Some(PyMethod::Post)
        } else if same_text(text, "PUT") {
            Some(PyMethod::Put)
        } else if same_text(text, "DELETE") {
            Some(PyMethod::Delete)
        } else if same_text(text, "PATCH") {
            Some(PyMethod::Patch)
        } else {
            None
        }
    }
}

/// Parsing the name of a method gives the method back.
pub proof fn law_method_name_round_trip(method: PyMethod)
    ensures
        method_named(method.spec_name()) == Some(method),
{
    reveal_strlit("GET");
    reveal_strlit("HEAD");
    reveal_strlit("POST");
    reveal_strlit("PUT");
    reveal_strlit("DELETE");
    reveal_strlit("PATCH");
    match method {
        PyMethod::Get => {},
        PyMethod::Head => {
            assert("HEAD"@.len() != "GET"@.len());
        },
        PyMethod::Post => {
            assert("POST"@.len() != "GET"@.len());
            assert("POST"@[0] != "HEAD"@[0]);
        },
        PyMethod::Put => {
            assert("PUT"@[0] != "GET"@[0]);
            assert("PUT"@.len() != "HEAD"@.len());
            assert("PUT"@.len() != "POST"@.len());
        },
        PyMethod::Delete => {
            assert("DELETE"@.len() != "GET"@.len());
            assert("DELETE"@.len() != "HEAD"@.len());
            assert("DELETE"@.len() != "POST"@.len());
            assert("DELETE"@.len() != "PUT"@.len());
        },
        PyMethod::Patch => {
            assert("PATCH"@.len() != "GET"@.len());
            assert("PATCH"@.len() != "HEAD"@.len());
            assert("PATCH"@.len() != "POST"@.len());
            assert("PATCH"@.len() != "PUT"@.len());
            assert("PATCH"@.len() != "DELETE"@.len());
        },
    }
}

/// Whether `url` parses as an absolute URL.
pub uninterp spec fn url_parses(url: Seq<char>) -> bool;

/// `reqwest::Url::parse`: whether `url` parses as an absolute URL.
#[verifier::external_body]
fn is_url(url: &str) -> (r: bool)
    ensures
        r == url_parses(url@),
{
    reqwest::Url::parse(url).is_ok()
}

/// Whether `name` is accepted as the name of a header field.
pub uninterp spec fn header_name_accepted(name: Seq<char>) -> bool;

/// `reqwest::header::HeaderName::from_bytes` on the bytes of `name`:
/// whether `name` is accepted as the name of a header field. The empty name
/// is not.
#[verifier::external_body]
fn is_header_name(name: &str) -> (r: bool)
    ensures
        r == header_name_accepted(name@),
        name@.len() == 0 ==> !r,
{
    reqwest::header::HeaderName::from_bytes(name.as_bytes()).is_ok()
}

/// A character that may stand in the value of a header field: a tab, or
/// anything from the space on but the delete character.
pub open spec fn is_value_char(c: char) -> bool {
    c == '\t' || (c as u32 >= 32 && c as u32 != 127)
}

/// Whether `value` is accepted as the value of a header field: all its
/// characters are [`is_value_char`].
pub open spec fn header_value_accepted(value: Seq<char>) -> bool {
    forall|i: int| 0 <= i < value.len() ==> is_value_char(#[trigger] value[i])
}

/// `reqwest::header::HeaderValue::from_str`: whether `value` is accepted as
/// the value of a header field. It is where each of its bytes is a tab, or
/// at least 32 and not 127; the bytes of a character above 127 all are.
#[verifier::external_body]
fn is_header_value(value: &str) -> (r: bool)
    ensures
        r == header_value_accepted(value@),
{
    reqwest::header::HeaderValue::from_str(value).is_ok()
}

/// One field of a request as a script gave it.
#[derive(Debug, Clone, PartialEq, Eq)]
pub enum Given<T> {
    /// The script gave none.
    Absent,
    /// The script gave this.
    Value(T),
    /// The script gave something of another kind than the field takes.
    Unreadable,
}

impl<T> Given<T> {
    /// The value given, or `default` where none was given or what was given
    /// cannot be read.
    pub open spec fn spec_value_or(self, default: T) -> T {
        match self {
            Given::Value(value) => value,
            _ => default,
        }
    }

    /// Computes [`Self::spec_value_or`].
    pub fn value_or(self, default: T) -> (r: T)
        ensures
            r == self.spec_value_or(default),
    {
        match self {
            Given::Value(value) => value,
            _ => default,
        }
    }
}

/// How often a request is sent where a script does not say.
pub const DEFAULT_AMOUNT: u32 = 1;

/// How many requests are in flight at once where a script that sends
/// through worker threads does not say.
pub const DEFAULT_THREADS: u32 = 1;

/// How many requests are in flight at once where a script that sends
/// through a pool does not say.
pub const DEFAULT_POOL: u32 = 100;

/// What a script hands over to describe a request.
#[derive(Debug, Clone, PartialEq, Eq)]
pub struct RequestFields {
    pub url: Given<String>,
    /// The method by name.
    pub method: Given<String>,
    pub headers: Given<Vec<(String, String)>>,
    /// The query parameters, in order.
    pub query: Given<Vec<(String, String)>>,
    /// A text body is given by its bytes.
    pub body: Given<Vec<u8>>,
    /// Milliseconds.
    pub timeout: Given<u64>,
}

/// What is wrong with a request as a script described it.
#[derive(Clone, Copy, Debug, PartialEq, Eq, Structural)]
pub enum MalformedTemplateError {
    /// There is no URL, or it is no text.
    MissingUrl,
    /// The URL does not parse.
    InvalidUrl,
    /// The method is none of the six.
    UnsupportedMethod,
    /// The headers are no list of pairs of text.
    InvalidHeaders,
    /// The header at this position has a name that HTTP does not allow.
    InvalidHeaderName(usize),
    /// The header at this position has a value that HTTP does not allow.
    InvalidHeaderValue(usize),
    /// The query parameters are no list of pairs of text.
    InvalidParams,
    /// The body is neither text nor bytes.
    InvalidBody,
}

/// The description of one HTTP call.
#[derive(Debug, Clone, PartialEq, Eq)]
pub struct PyRequest {
    pub url: String,
    pub method: PyMethod,
    /// Header fields, each name as it was written. A template made by
    /// [`PyRequest::from_args`] or [`PyRequest::from_table`] holds no name
    /// twice, whatever the case of its letters: of the pairs given with one
    /// name the last one stays.
    pub headers: Vec<(String, String)>,
    /// Query parameters, in the order in which they are appended.
    pub params: Vec<(String, String)>,
    pub body: Option<Vec<u8>>,
    /// Milliseconds after which the request is given up.
    pub timeout: u64,
}

/// A request template as plain values.
pub struct Template {
    pub url: Seq<char>,
    pub method: PyMethod,
    pub headers: Seq<(Seq<char>, Seq<char>)>,
    pub params: Seq<(Seq<char>, Seq<char>)>,
    pub body: Option<Seq<u8>>,
    pub timeout: u64,
}

impl View for PyRequest {
    type V = Template;

    open spec fn view(&self) -> Template {
        Template {
            url: self.url@,
            method: self.method,
            headers: pairs_view(self.headers@),
            params: pairs_view(self.params@),
            body: match self.body {
                Some(bytes) => Some(bytes@),
                None => None,
            },
            timeout: self.timeout,
        }
    }
}

/// The header at position `at` is the first that HTTP does not allow.
pub open spec fn is_first_bad_header(headers: Seq<(Seq<char>, Seq<char>)>, at: int) -> bool {
    &&& 0 <= at < headers.len()
    &&& !(header_name_accepted(headers[at].0) && header_value_accepted(headers[at].1))
    &&& forall|k: int|
        0 <= k < at ==> header_name_accepted((#[trigger] headers[k]).0) && header_value_accepted(
            headers[k].1,
        )
}

/// Every header is one that HTTP allows.
pub open spec fn headers_accepted(headers: Seq<(Seq<char>, Seq<char>)>) -> bool {
    forall|k: int|
        0 <= k < headers.len() ==> header_name_accepted((#[trigger] headers[k]).0)
            && header_value_accepted(headers[k].1)
}

/// A list of pairs as given, where none is given the empty list.
pub open spec fn pairs_given(field: Given<Vec<(String, String)>>) -> Seq<(Seq<char>, Seq<char>)> {
    match field {
        Given::Value(pairs) => pairs_view(pairs@),
        _ => Seq::empty(),
    }
}

/// The body as given, where one is given.
pub open spec fn body_given(field: Given<Vec<u8>>) -> Option<Seq<u8>> {
    match field {
        Given::Value(bytes) => Some(bytes@),
        _ => None,
    }
}

/// The timeout as given, where one is given that can be read; else
/// [`DEFAULT_TIMEOUT`].
pub open spec fn timeout_given(field: Given<u64>) -> u64 {
    match field {
        Given::Value(millis) => millis,
        _ => DEFAULT_TIMEOUT,
    }
}

/// What is wrong with the template made of these parts, if anything is.
/// The URL is looked at first, then the headers in order, then the query
/// parameters, then the body.
pub open spec fn template_fault(
    url: Seq<char>,
    headers: Given<Vec<(String, String)>>,
    params: Given<Vec<(String, String)>>,
    body: Given<Vec<u8>>,
    fault: MalformedTemplateError,
) -> bool {
    if !url_parses(url) {
        fault == MalformedTemplateError::InvalidUrl
    } else if headers is Unreadable {
        fault == MalformedTemplateError::InvalidHeaders
    } else if !headers_accepted(pairs_given(headers)) {
        match fault {
            MalformedTemplateError::InvalidHeaderName(at) => is_first_bad_header(
                pairs_given(headers),
                at as int,
            ) && !header_name_accepted(pairs_given(headers)[at as int].0),
            MalformedTemplateError::InvalidHeaderValue(at) => is_first_bad_header(
                pairs_given(headers),
                at as int,
            ) && header_name_accepted(pairs_given(headers)[at as int].0),
            _ => false,
        }
    } else if params is Unreadable {
        fault == MalformedTemplateError::InvalidParams
    } else if body is Unreadable {
        fault == MalformedTemplateError::InvalidBody
    } else {
        false
    }
}

/// The parts make a template: nothing is wrong with them.
pub open spec fn template_sound(
    url: Seq<char>,
    headers: Given<Vec<(String, String)>>,
    params: Given<Vec<(String, String)>>,
    body: Given<Vec<u8>>,
) -> bool {
    &&& url_parses(url)
    &&& !(headers is Unreadable)
    &&& headers_accepted(pairs_given(headers))
    &&& !(params is Unreadable)
    &&& !(body is Unreadable)
}

/// The template made of sound parts. Its headers are a mapping: see
/// [`distinct_headers`].
pub open spec fn template_of(
    url: Seq<char>,
    method: PyMethod,
    headers: Given<Vec<(String, String)>>,
    params: Given<Vec<(String, String)>>,
    body: Given<Vec<u8>>,
    timeout: Given<u64>,
) -> Template {
    Template {
        url,
        method,
        headers: distinct_headers(pairs_given(headers)),
        params: pairs_given(params),
        body: body_given(body),
        timeout: timeout_given(timeout),
    }
}

/// The code of `c` with capitals of the Latin alphabet taken for their
/// small letters.
pub open spec fn folded(c: char) -> u32 {
    if 'A' <= c <= 'Z' {
        (c as u32 + 32) as u32
    } else {
        c as u32
    }
}

/// Two names of header fields are one name: they are equal but for the
/// case of their letters.
pub open spec fn same_name(a: Seq<char>, b: Seq<char>) -> bool {
    &&& a.len() == b.len()
    &&& forall|i: int|
        #![trigger a[i]]
        #![trigger b[i]]
        0 <= i < a.len() ==> folded(a[i]) == folded(b[i])
}

/// No pair after the one at `at` has its name.
pub open spec fn is_last_of_name(headers: Seq<(Seq<char>, Seq<char>)>, at: int) -> bool {
    forall|k: int| at < k < headers.len() ==> !same_name((#[trigger] headers[k]).0, headers[at].0)
}

/// Those among the first `upto` pairs that are the last of their name, in
/// their order.
pub open spec fn kept_headers(headers: Seq<(Seq<char>, Seq<char>)>, upto: nat) -> Seq<
    (Seq<char>, Seq<char>),
>
    decreases upto,
{
    if upto == 0 || upto > headers.len() {
        Seq::empty()
    } else if is_last_of_name(headers, upto - 1) {
        kept_headers(headers, (upto - 1) as nat).push(headers[upto - 1])
    } else {
        kept_headers(headers, (upto - 1) as nat)
    }
}

/// The headers as a mapping: of the pairs given with one name the last
/// one stays, as it was written and at its place among those that stay.
pub open spec fn distinct_headers(headers: Seq<(Seq<char>, Seq<char>)>) -> Seq<
    (Seq<char>, Seq<char>),
> {
    kept_headers(headers, headers.len())
}

/// No name occurs twice among `headers`, whatever the case of its letters.
pub open spec fn names_distinct(headers: Seq<(Seq<char>, Seq<char>)>) -> bool {
    forall|i: int, j: int|
        0 <= i < j < headers.len() ==> !same_name(
            (#[trigger] headers[i]).0,
            (#[trigger] headers[j]).0,
        )
}

/// The positions among the first `upto` pairs of those that are the last
/// of their name.
pub open spec fn kept_positions(headers: Seq<(Seq<char>, Seq<char>)>, upto: nat) -> Seq<int>
    decreases upto,
{
    if upto == 0 || upto > headers.len() {
        Seq::empty()
    } else if is_last_of_name(headers, upto - 1) {
        kept_positions(headers, (upto - 1) as nat).push(upto - 1)
    } else {
        kept_positions(headers, (upto - 1) as nat)
    }
}

/// What stays of the first `upto` pairs are the pairs at the kept
/// positions; these rise, and each is the last of its name.
pub proof fn lemma_kept_headers(headers: Seq<(Seq<char>, Seq<char>)>, upto: nat)
    requires
        upto <= headers.len(),
    ensures
        kept_positions(headers, upto).len() == kept_headers(headers, upto).len(),
        forall|i: int|
            0 <= i < kept_positions(headers, upto).len() ==> {
                let at = #[trigger] kept_positions(headers, upto)[i];
                &&& 0 <= at < upto
                &&& is_last_of_name(headers, at)
                &&& kept_headers(headers, upto)[i] == headers[at]
            },
        forall|i: int, j: int|
            0 <= i < j < kept_positions(headers, upto).len() ==> (#[trigger] kept_positions(
                headers,
                upto,
            )[i]) < (#[trigger] kept_positions(headers, upto)[j]),
        forall|at: int|
            0 <= at < upto && is_last_of_name(headers, at) ==> kept_positions(
                headers,
                upto,
            ).contains(at),
    decreases upto,
{
    if upto > 0 {
        let before = (upto - 1) as nat;
        lemma_kept_headers(headers, before);
        let positions = kept_positions(headers, upto);
        let earlier = kept_positions(headers, before);
        if is_last_of_name(headers, upto - 1) {
            assert(positions == earlier.push(upto - 1));
            assert forall|i: int| 0 <= i < positions.len() implies {
                let at = #[trigger] positions[i];
                &&& 0 <= at < upto
                &&& is_last_of_name(headers, at)
                &&& kept_headers(headers, upto)[i] == headers[at]
            } by {
                if i < earlier.len() {
                    assert(positions[i] == earlier[i]);
                }
            }
            assert forall|i: int, j: int| 0 <= i < j < positions.len() implies (
            #[trigger] positions[i]) < (#[trigger] positions[j]) by {
                assert(positions[i] == earlier[i]);
                if j < earlier.len() {
                    assert(positions[j] == earlier[j]);
                }
            }
            assert forall|at: int|
                0 <= at < upto && is_last_of_name(headers, at) implies positions.contains(at) by {
                if at < upto - 1 {
                    assert(earlier.contains(at));
                    let i = choose|i: int| 0 <= i < earlier.len() && earlier[i] == at;
                    assert(positions[i] == at);
                } else {
                    assert(positions[positions.len() - 1] == at);
                }
            }
        } else {
            assert(positions == earlier);
        }
    }
}

/// Being one name goes both ways.
pub proof fn lemma_same_name_symmetric(a: Seq<char>, b: Seq<char>)
    ensures
        same_name(a, b) == same_name(b, a),
{
    if same_name(a, b) {
        assert forall|i: int| 0 <= i < b.len() implies folded(#[trigger] b[i]) == folded(a[i]) by {
            assert(folded(a[i]) == folded(b[i]));
        }
    }
    if same_name(b, a) {
        assert forall|i: int| 0 <= i < a.len() implies folded(#[trigger] a[i]) == folded(b[i]) by {
            assert(folded(b[i]) == folded(a[i]));
        }
    }
}

/// Headers as a mapping hold no name twice, and hold of each name the pair
/// that was given last: every pair that stays is the last of its name
/// among the pairs given, and every pair that is the last of its name
/// stays.
pub proof fn law_headers_are_a_mapping(headers: Seq<(Seq<char>, Seq<char>)>)
    ensures
        names_distinct(distinct_headers(headers)),
        forall|i: int|
            0 <= i < distinct_headers(headers).len() ==> exists|at: int|
                0 <= at < headers.len() && is_last_of_name(headers, at) && headers[at]
                    == #[trigger] distinct_headers(headers)[i],
        forall|at: int|
            0 <= at < headers.len() && is_last_of_name(headers, at) ==> distinct_headers(
                headers,
            ).contains(#[trigger] headers[at]),
{
    lemma_kept_headers(headers, headers.len());
    let kept = distinct_headers(headers);
    let positions = kept_positions(headers, headers.len());
    assert forall|i: int, j: int| 0 <= i < j < kept.len() implies !same_name(
        (#[trigger] kept[i]).0,
        (#[trigger] kept[j]).0,
    ) by {
        let first = positions[i];
        let second = positions[j];
        assert(first < second);
        assert(is_last_of_name(headers, first));
        assert(!same_name(headers[second].0, headers[first].0));
        lemma_same_name_symmetric(headers[second].0, headers[first].0);
    }
    assert forall|i: int| 0 <= i < kept.len() implies exists|at: int|
        0 <= at < headers.len() && is_last_of_name(headers, at) && headers[at]
            == #[trigger] kept[i] by {
        let at = positions[i];
        assert(0 <= at < headers.len() && is_last_of_name(headers, at) && headers[at] == kept[i]);
    }
    assert forall|at: int|
        0 <= at < headers.len() && is_last_of_name(headers, at) implies kept.contains(
        #[trigger] headers[at],
    ) by {
        assert(positions.contains(at));
        let i = choose|i: int| 0 <= i < positions.len() && positions[i] == at;
        assert(kept[i] == headers[at]);
    }
}

/// Whether two names of header fields are one name: see [`same_name`].
pub fn is_same_name(a: &str, b: &str) -> (r: bool)
    ensures
        r == same_name(a@, b@),
{
    let len = a.unicode_len();
    if b.unicode_len() != len {
        return false;
    }
    let mut i: usize = 0;
    while i < len
        invariant
            len == a@.len(),
            len == b@.len(),
            i <= len,
            forall|k: int| 0 <= k < i ==> folded(#[trigger] a@[k]) == folded(b@[k]),
        decreases len - i,
    {
        let left = a.get_char(i);
        let right = b.get_char(i);
        let low_left: u32 = if left >= 'A' && left <= 'Z' {
            left as u32 + 32
        } else {
            left as u32
        };
        let low_right: u32 = if right >= 'A' && right <= 'Z' {
            right as u32 + 32
        } else {
            right as u32
        };
        if low_left != low_right {
            assert(folded(a@[i as int]) != folded(b@[i as int]));
            return false;
        }
        i += 1;
    }
    assert forall|k: int| 0 <= k < a@.len() implies folded(#[trigger] a@[k]) == folded(b@[k]) by {}
    true
}

/// Of the pairs with one name the last: see [`distinct_headers`].
pub fn last_of_each_name(headers: &Vec<(String, String)>) -> (r: Vec<(String, String)>)
    ensures
        pairs_view(r@) == distinct_headers(pairs_view(headers@)),
        names_distinct(pairs_view(r@)),
{
    let ghost given = pairs_view(headers@);
    let mut kept: Vec<(String, String)> = Vec::new();
    let mut i: usize = 0;
    assert(pairs_view(kept@) =~= kept_headers(given, 0));
    while i < headers.len()
        invariant
            i <= headers.len(),
            given == pairs_view(headers@),
            pairs_view(kept@) == kept_headers(given, i as nat),
        decreases headers.len() - i,
    {
        let mut last = true;
        let mut k: usize = i + 1;
        while k < headers.len()
            invariant
                i < k <= headers.len(),
                given == pairs_view(headers@),
                last == forall|j: int|
                    i < j < k ==> !same_name((#[trigger] given[j]).0, given[i as int].0),
            decreases headers.len() - k,
        {
            assert(given[k as int].0 == headers[k as int].0@);
            assert(given[i as int].0 == headers[i as int].0@);
            if is_same_name(headers[k].0.as_str(), headers[i].0.as_str()) {
                last = false;
            }
            k += 1;
        }
        assert(last == is_last_of_name(given, i as int));
        if last {
            let ghost before = pairs_view(kept@);
            let name = headers[i].0.clone();
            let value = headers[i].1.clone();
            kept.push((name, value));
            assert(given[i as int] == (headers[i as int].0@, headers[i as int].1@));
            assert(pairs_view(kept@) =~= before.push(given[i as int]));
        }
        i += 1;
    }
    proof {
        law_headers_are_a_mapping(given);
    }
    kept
}

/// What the checks said of a URL and of each header of a request.
#[derive(Debug, Clone, PartialEq, Eq)]
pub struct Checked {
    /// Whether the URL parses.
    pub url: bool,
    /// For each header, whether its name is accepted and whether its value
    /// is.
    pub headers: Vec<(bool, bool)>,
}

/// The position of the first header that was not accepted, or the number
/// of headers where all were.
pub open spec fn first_rejected(verdicts: Seq<(bool, bool)>) -> int
    decreases verdicts.len(),
{
    if verdicts.len() == 0 {
        0
    } else if !(verdicts[0].0 && verdicts[0].1) {
        0
    } else {
        1 + first_rejected(verdicts.drop_first())
    }
}

/// [`first_rejected`] is the first position not accepted.
pub proof fn lemma_first_rejected(verdicts: Seq<(bool, bool)>)
    ensures
        0 <= first_rejected(verdicts) <= verdicts.len(),
        first_rejected(verdicts) < verdicts.len() ==> !(verdicts[first_rejected(verdicts)].0
            && verdicts[first_rejected(verdicts)].1),
        forall|k: int|
            0 <= k < first_rejected(verdicts) ==> (#[trigger] verdicts[k]).0 && verdicts[k].1,
    decreases verdicts.len(),
{
    if verdicts.len() > 0 && verdicts[0].0 && verdicts[0].1 {
        let rest = verdicts.drop_first();
        lemma_first_rejected(rest);
        assert forall|k: int| 0 <= k < first_rejected(verdicts) implies (#[trigger] verdicts[k]).0
            && verdicts[k].1 by {
            if k > 0 {
                assert(rest[k - 1] == verdicts[k]);
            }
        }
    }
}

/// What is wrong with a request whose URL and headers were checked with
/// the result `url_ok` and `verdicts`; `None` where nothing is. The URL is
/// looked at first, then the headers in order, then the query parameters,
/// then the body.
pub open spec fn fault_found(
    url_ok: bool,
    verdicts: Seq<(bool, bool)>,
    headers: Given<Vec<(String, String)>>,
    params: Given<Vec<(String, String)>>,
    body: Given<Vec<u8>>,
) -> Option<MalformedTemplateError> {
    let at = first_rejected(verdicts);
    if !url_ok {
        Some(MalformedTemplateError::InvalidUrl)
    } else if headers is Unreadable {
        Some(MalformedTemplateError::InvalidHeaders)
    } else if at < verdicts.len() {
        if !verdicts[at].0 {
            Some(MalformedTemplateError::InvalidHeaderName(at as usize))
        } else {
            Some(MalformedTemplateError::InvalidHeaderValue(at as usize))
        }
    } else if params is Unreadable {
        Some(MalformedTemplateError::InvalidParams)
    } else if body is Unreadable {
        Some(MalformedTemplateError::InvalidBody)
    } else {
        None
    }
}

/// The verdicts are those on `headers`.
pub open spec fn verdicts_on(verdicts: Seq<(bool, bool)>, headers: Seq<(Seq<char>, Seq<char>)>) -> bool {
    &&& verdicts.len() == headers.len()
    &&& forall|k: int|
        0 <= k < verdicts.len() ==> (#[trigger] verdicts[k]).0 == header_name_accepted(
            headers[k].0,
        ) && verdicts[k].1 == header_value_accepted(headers[k].1)
}

/// Checks the URL and each header that was given.
pub fn examine(url: &str, headers: &Given<Vec<(String, String)>>) -> (r: Checked)
    ensures
        r.url == url_parses(url@),
        verdicts_on(r.headers@, pairs_given(*headers)),
{
    let url_ok = is_url(url);
    let mut verdicts: Vec<(bool, bool)> = Vec::new();
    match headers {
        Given::Value(pairs) => {
            let mut i: usize = 0;
            while i < pairs.len()
                invariant
                    i <= pairs.len(),
                    verdicts.len() == i,
                    forall|k: int|
                        0 <= k < i ==> (#[trigger] verdicts[k]).0 == header_name_accepted(
                            pairs[k].0@,
                        ) && verdicts[k].1 == header_value_accepted(pairs[k].1@),
                decreases pairs.len() - i,
            {
                let name_ok = is_header_name(pairs[i].0.as_str());
                let value_ok = is_header_value(pairs[i].1.as_str());
                verdicts.push((name_ok, value_ok));
                i += 1;
            }
        },
        _ => {},
    }
    Checked { url: url_ok, headers: verdicts }
}

/// The first verdict that is not an acceptance, as the error it stands
/// for.
fn first_fault(verdicts: &Vec<(bool, bool)>) -> (r: Option<MalformedTemplateError>)
    ensures
        r == if first_rejected(verdicts@) < verdicts.len() {
            if !verdicts[first_rejected(verdicts@)].0 {
                Some(MalformedTemplateError::InvalidHeaderName(first_rejected(verdicts@) as usize))
            } else {
                Some(MalformedTemplateError::InvalidHeaderValue(first_rejected(verdicts@) as usize))
            }
        } else {
            None
        },
{
    let mut i: usize = 0;
    proof {
        lemma_first_rejected(verdicts@);
    }
    while i < verdicts.len()
        invariant
            i <= verdicts.len(),
            i <= first_rejected(verdicts@) <= verdicts.len(),
        decreases verdicts.len() - i,
    {
        proof {
            lemma_first_rejected(verdicts@);
        }
        if !verdicts[i].0 {
            return Some(MalformedTemplateError::InvalidHeaderName(i));
        }
        if !verdicts[i].1 {
            return Some(MalformedTemplateError::InvalidHeaderValue(i));
        }
        i += 1;
    }
    None
}

impl PyRequest {
    /// Makes the template for `method` and `url` from what a script gave
    /// and from what the checks said of it.
    pub fn assemble(url: String, method: PyMethod, fields: RequestFields, checked: &Checked) -> (r:
        Result<Self, MalformedTemplateError>)
        ensures
            match fault_found(
                checked.url,
                checked.headers@,
                fields.headers,
                fields.query,
                fields.body,
            ) {
                Some(fault) => r == Err::<Self, MalformedTemplateError>(fault),
                None => r matches Ok(request) && request@ == template_of(
                    url@,
                    method,
                    fields.headers,
                    fields.query,
                    fields.body,
                    fields.timeout,
                ) && names_distinct(request@.headers),
            },
    {
        if !checked.url {
            return Err(MalformedTemplateError::InvalidUrl);
        }
        let RequestFields { url: _, method: _, headers, query, body, timeout } = fields;
        let headers = match headers {
            Given::Value(pairs) => {
                match first_fault(&checked.headers) {
                    Some(fault) => {
                        return Err(fault);
                    },
                    None => {},
                }
                last_of_each_name(&pairs)
            },
            Given::Absent => {
                match first_fault(&checked.headers) {
                    Some(fault) => {
                        return Err(fault);
                    },
                    None => {},
                }
                let none: Vec<(String, String)> = Vec::new();
                assert(pairs_view(none@) =~= distinct_headers(
                    Seq::<(Seq<char>, Seq<char>)>::empty(),
                ));
                none
            },
            Given::Unreadable => {
                return Err(MalformedTemplateError::InvalidHeaders);
            },
        };
        let params = match query {
            Given::Value(pairs) => pairs,
            Given::Absent => {
                let none: Vec<(String, String)> = Vec::new();
                assert(pairs_view(none@) =~= Seq::<(Seq<char>, Seq<char>)>::empty());
                none
            },
            Given::Unreadable => {
                return Err(MalformedTemplateError::InvalidParams);
            },
        };
        let body = match body {
            Given::Value(bytes) => Some(bytes),
            Given::Absent => None,
            Given::Unreadable => {
                return Err(MalformedTemplateError::InvalidBody);
            },
        };
        let timeout = match timeout {
            Given::Value(millis) => millis,
            _ => DEFAULT_TIMEOUT,
        };
        Ok(PyRequest { url, method, headers, params, body, timeout })
    }

    /// Makes a template for `method` and `url` from what else a script gave:
    /// headers, query parameters, body and timeout. The URL and the method
    /// named in `fields` are not looked at.
    pub fn from_args(url: String, method: PyMethod, fields: RequestFields) -> (r: Result<
        Self,
        MalformedTemplateError,
    >)
        ensures
            r is Ok <==> template_sound(url@, fields.headers, fields.query, fields.body),
            r matches Ok(request) ==> request@ == template_of(
                url@,
                method,
                fields.headers,
                fields.query,
                fields.body,
                fields.timeout,
            ) && names_distinct(request@.headers),
            r matches Err(fault) ==> template_fault(
                url@,
                fields.headers,
                fields.query,
                fields.body,
                fault,
            ),
    {
        let checked = examine(url.as_str(), &fields.headers);
        proof {
            lemma_first_rejected(checked.headers@);
            let headers = pairs_given(fields.headers);
            let at = first_rejected(checked.headers@);
            let verdicts = checked.headers@;
            assert forall|k: int| 0 <= k < at implies header_name_accepted(
                (#[trigger] headers[k]).0,
            ) && header_value_accepted(headers[k].1) by {
                assert(verdicts[k].0 && verdicts[k].1);
            }
            if at < verdicts.len() {
                assert(verdicts[at].0 == header_name_accepted(headers[at].0));
                assert(verdicts[at].1 == header_value_accepted(headers[at].1));
                assert(is_first_bad_header(headers, at));
                assert(!headers_accepted(headers));
                assert(checked.headers.len() <= usize::MAX);
                assert(at as usize as int == at);
            } else {
                assert(headers_accepted(headers));
            }
        }
        PyRequest::assemble(url, method, fields, &checked)
    }

    /// Makes a template from what a script gave. The URL is required. The
    /// method is GET where none is named, or where what is named is no
    /// text.
    pub fn from_table(fields: RequestFields) -> (r: Result<Self, MalformedTemplateError>)
        ensures
            match fields.url {
                Given::Value(url) => match table_method(fields.method) {
                    Some(method) => {
                        &&& r is Ok <==> template_sound(
                            url@,
                            fields.headers,
                            fields.query,
                            fields.body,
                        )
                        &&& r matches Ok(request) ==> request@ == template_of(
                            url@,
                            method,
                            fields.headers,
                            fields.query,
                            fields.body,
                            fields.timeout,
                        ) && names_distinct(request@.headers)
                        &&& r matches Err(fault) ==> template_fault(
                            url@,
                            fields.headers,
                            fields.query,
                            fields.body,
                            fault,
                        )
                    },
                    None => r == Err::<Self, MalformedTemplateError>(
                        MalformedTemplateError::UnsupportedMethod,
                    ),
                },
                _ => r == Err::<Self, MalformedTemplateError>(MalformedTemplateError::MissingUrl),
            },
    {
        let RequestFields { url, method, headers, query, body, timeout } = fields;
        let url = match url {
            Given::Value(url) => url,
            _ => {
                return Err(MalformedTemplateError::MissingUrl);
            },
        };
        let method = match &method {
            Given::Value(name) => match PyMethod::parse(name.as_str()) {
                Some(method) => method,
                None => {
                    return Err(MalformedTemplateError::UnsupportedMethod);
                },
            },
            _ => PyMethod::Get,
        };
        PyRequest::from_args(
            url,
            method,
            RequestFields {
                url: Given::Absent,
                method: Given::Absent,
                headers,
                query,
                body,
                timeout,
            },
        )
    }

    /// An owned copy for one repetition, equal to the template in every
    /// field: making it changes nothing and adds nothing.
    pub fn replicate(&self) -> (r: Self)
        ensures
            r@ == self@,
    {
        PyRequest {
            url: self.url.clone(),
            method: self.method,
            headers: copy_pairs(&self.headers),
            params: copy_pairs(&self.params),
            body: match &self.body {
                Some(bytes) => Some(copy_bytes(bytes)),
                None => None,
            },
            timeout: self.timeout,
        }
    }
}

/// The method of a template made from a script's fields: the one named,
/// GET where none is named or the name is no text, none where the name is
/// of no method.
pub open spec fn table_method(field: Given<String>) -> Option<PyMethod> {
    match field {
        Given::Value(name) => method_named(name@),
        _ => Some(PyMethod::Get),
    }
}

} // verus!
