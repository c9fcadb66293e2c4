//! The captured request record and its mathematical view.

use vstd::prelude::*;

verus! {

/// What a captured request is, as plain sequences of characters.
pub struct RequestView {
    pub method: Seq<char>,
    pub headers: Seq<char>,
    pub body: Seq<char>,
}

/// The text that a capture records as its body for a raw request body.
pub open spec fn callback_body(raw: Seq<char>) -> Seq<char> {
    "Body: "@ + raw
}

/// The text that answers a lookup of an identification without a capture.
pub open spec fn not_found_text(id: Seq<char>) -> Seq<char> {
    "No data available for identification: "@ + id
}

/// The views of a sequence of records, in the same order.
pub open spec fn views_of(records: Seq<CapturedRequest>) -> Seq<RequestView> {
    Seq::new(records.len(), |i: int| records[i]@)
}

/// One recorded inbound request: the method, a rendering of the headers and
/// the body text. A value is never changed after it is made.
#[derive(Debug, PartialEq, Eq)]
pub struct CapturedRequest {
    method: String,
    headers: String,
    body: String,
}

impl View for CapturedRequest {
    type V = RequestView;

    closed spec fn view(&self) -> RequestView {
        RequestView { method: self.method@, headers: self.headers@, body: self.body@ }
    }
}

impl Clone for CapturedRequest {
    fn clone(&self) -> (copy: Self)
        ensures
            copy == *self,
    {
        CapturedRequest {
            method: self.method.clone(),
            headers: self.headers.clone(),
            body: self.body.clone(),
        }
    }
}

impl CapturedRequest {
    /// Builds a record from its three parts, taken as they are.
    pub fn new(method: &str, headers: &str, body: &str) -> (record: Self)
        ensures
            record@ == (RequestView { method: method@, headers: headers@, body: body@ }),
    {
        CapturedRequest {
            method: method.to_owned(),
            headers: headers.to_owned(),
            body: body.to_owned(),
        }
    }

    /// Builds the record of an inbound callback: the body is kept behind the
    /// marker `Body: `, the method and the headers as they are.
    pub fn from_callback(method: &str, headers: &str, raw_body: &str) -> (record: Self)
        ensures
            record@ == (RequestView {
                method: method@,
                headers: headers@,
                body: callback_body(raw_body@),
            }),
    {
        let mut body = "Body: ".to_owned();
        body.append(raw_body);
        CapturedRequest { method: method.to_owned(), headers: headers.to_owned(), body }
    }

    /// The request method, as recorded.
    pub fn method(&self) -> (text: &str)
        ensures
            text@ == self@.method,
    {
        self.method.as_str()
    }

    /// The rendering of the request headers, as recorded.
    pub fn headers(&self) -> (text: &str)
        ensures
            text@ == self@.headers,
    {
        self.headers.as_str()
    }

    /// The body text, as recorded.
    pub fn body(&self) -> (text: &str)
        ensures
            text@ == self@.body,
    {
        self.body.as_str()
    }
}

/// The message for a lookup that found nothing: a fixed sentence followed by
/// the identification that was asked for.
pub fn not_found_message(id: &str) -> (message: String)
    ensures
        message@ == not_found_text(id@),
{
    let mut message = "No data available for identification: ".to_owned();
    message.append(id);
    message
}

/// The not-found text ends with the identification it was built for, so the
/// identification can be read back from it.
pub proof fn lemma_not_found_text_names_id(id: Seq<char>)
    ensures
        not_found_text(id).len() >= id.len(),
        not_found_text(id).subrange(
            not_found_text(id).len() - id.len(),
            not_found_text(id).len() as int,
        ) == id,
{
    let text = not_found_text(id);
    assert(text.subrange(text.len() - id.len(), text.len() as int) =~= id);
}

} // verus!
