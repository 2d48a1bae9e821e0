//! Requests and responses as plain values: what the protocol reads from a
//! request and what it puts into a response.

use crate::text::{names_match, same_name};
use crate::X_INERTIA_LOCATION;
use vstd::prelude::*;

verus! {

/// Status of an ordinary full-page or protocol response.
pub const STATUS_OK: u16 = 200;

/// Status of a response that sends the client to another location.
pub const STATUS_CONFLICT: u16 = 409;

/// Name of the header that carries a body's media type.
pub const CONTENT_TYPE: &'static str = "Content-Type";

/// Media type of a protocol response.
pub const CONTENT_TYPE_JSON: &'static str = "application/json";

/// Media type of a full-page response.
pub const CONTENT_TYPE_HTML: &'static str = "text/html; charset=utf-8";

/// The value of a header: text where the octets received are visible ASCII,
/// the octets themselves where they are not.
#[derive(Debug, PartialEq, Eq)]
pub enum HeaderValue {
    Text(String),
    Opaque(Vec<u8>),
}

/// The mathematical value of a `HeaderValue`.
pub enum HeaderValueView {
    Text(Seq<char>),
    Opaque(Seq<u8>),
}

impl View for HeaderValue {
    type V = HeaderValueView;

    open spec fn view(&self) -> HeaderValueView {
        match self {
            HeaderValue::Text(text) => HeaderValueView::Text(text@),
            HeaderValue::Opaque(octets) => HeaderValueView::Opaque(octets@),
        }
    }
}

impl HeaderValue {
    /// A copy of this value.
    pub fn duplicate(&self) -> (copy: HeaderValue)
        ensures
            copy@ == self@,
    {
        match self {
            HeaderValue::Text(text) => HeaderValue::Text(text.clone()),
            HeaderValue::Opaque(octets) => {
                let mut copy: Vec<u8> = Vec::new();
                let mut i: usize = 0;
                while i < octets.len()
                    invariant
                        i <= octets.len(),
                        copy@ == octets@.take(i as int),
                    decreases octets.len() - i,
                {
                    copy.push(octets[i]);
                    i += 1;
                }
                assert(octets@.take(i as int) =~= octets@);
                HeaderValue::Opaque(copy)
            },
        }
    }
}

/// One header line.
#[derive(Debug, PartialEq, Eq)]
pub struct Header {
    pub name: String,
    pub value: HeaderValue,
}

/// The mathematical value of a `Header`.
pub struct HeaderView {
    pub name: Seq<char>,
    pub value: HeaderValueView,
}

impl View for Header {
    type V = HeaderView;

    open spec fn view(&self) -> HeaderView {
        HeaderView { name: self.name@, value: self.value@ }
    }
}

impl Header {
    /// The header `name` with the text `value`.
    pub fn text(name: &str, value: &str) -> (header: Header)
        ensures
            header@ == text_header(name@, value@),
    {
        Header { name: name.to_owned(), value: HeaderValue::Text(value.to_owned()) }
    }
}

/// The header `name` with the text `value`.
pub open spec fn text_header(name: Seq<char>, value: Seq<char>) -> HeaderView {
    HeaderView { name, value: HeaderValueView::Text(value) }
}

/// The views of `headers`.
pub open spec fn header_views(headers: Seq<Header>) -> Seq<HeaderView> {
    headers.map_values(|header: Header| header@)
}

/// The value of the first header of `headers` that is named `name`, whatever
/// the ASCII case of the two names.
pub open spec fn find_header(headers: Seq<HeaderView>, name: Seq<char>) -> Option<HeaderValueView>
    decreases headers.len(),
{
    if headers.len() == 0 {
        None
    } else if same_name(headers[0].name, name) {
        Some(headers[0].value)
    } else {
        find_header(headers.skip(1), name)
    }
}

/// The text of the header `name`, where there is such a header and its value
/// is text.
pub open spec fn header_text(headers: Seq<HeaderView>, name: Seq<char>) -> Option<Seq<char>> {
    match find_header(headers, name) {
        Some(HeaderValueView::Text(text)) => Some(text),
        _ => None,
    }
}

/// What the protocol reads from a request.
#[derive(Debug, PartialEq, Eq)]
pub struct Request {
    /// The method, as written on the request line.
    pub method: String,
    /// The path of the request target, without the query.
    pub path: String,
    /// The request target: the path and, where there is one, the query.
    pub uri: String,
    /// The headers, in the order in which they were received.
    pub headers: Vec<Header>,
}

/// The mathematical value of a `Request`.
pub struct RequestView {
    pub method: Seq<char>,
    pub path: Seq<char>,
    pub uri: Seq<char>,
    pub headers: Seq<HeaderView>,
}

impl View for Request {
    type V = RequestView;

    open spec fn view(&self) -> RequestView {
        RequestView {
            method: self.method@,
            path: self.path@,
            uri: self.uri@,
            headers: header_views(self.headers@),
        }
    }
}

impl Request {
    /// The value of the first header named `name`, whatever the ASCII case of
    /// the two names.
    pub fn header(&self, name: &str) -> (found: Option<&HeaderValue>)
        ensures
            match found {
                Some(value) => find_header(self@.headers, name@) == Some(value@),
                None => find_header(self@.headers, name@) is None,
            },
    {
        let ghost all = header_views(self.headers@);
        let mut i: usize = 0;
        proof {
            assert(all.skip(0) =~= all);
        }
        while i < self.headers.len()
            invariant
                i <= self.headers.len(),
                all == header_views(self.headers@),
                find_header(all, name@) == find_header(all.skip(i as int), name@),
            decreases self.headers.len() - i,
        {
            proof {
                assert(all.skip(i as int)[0] == self.headers@[i as int]@);
                assert(all.skip(i as int).skip(1) =~= all.skip(i + 1));
            }
            if names_match(self.headers[i].name.as_str(), name) {
                return Some(&self.headers[i].value);
            }
            i += 1;
        }
        None
    }

    /// The text of the header `name`; `None` where the header is missing or
    /// its value is no text.
    pub fn header_text(&self, name: &str) -> (found: Option<&String>)
        ensures
            match found {
                Some(text) => header_text(self@.headers, name@) == Some(text@),
                None => header_text(self@.headers, name@) is None,
            },
    {
        match self.header(name) {
            Some(HeaderValue::Text(text)) => Some(text),
            _ => None,
        }
    }

    /// Whether the request has a header named `name`.
    pub fn has_header(&self, name: &str) -> (present: bool)
        ensures
            present == find_header(self@.headers, name@).is_some(),
    {
        self.header(name).is_some()
    }
}

/// What the protocol answers: a status, headers and a body.
#[derive(Debug, PartialEq, Eq)]
pub struct Response {
    pub status: u16,
    pub headers: Vec<Header>,
    pub body: String,
}

/// The mathematical value of a `Response`.
pub struct ResponseView {
    pub status: int,
    pub headers: Seq<HeaderView>,
    pub body: Seq<char>,
}

impl View for Response {
    type V = ResponseView;

    open spec fn view(&self) -> ResponseView {
        ResponseView {
            status: self.status as int,
            headers: header_views(self.headers@),
            body: self.body@,
        }
    }
}

/// The response that makes the client load `location` in full: a conflict
/// that names the location and has no body.
pub open spec fn redirect(location: Seq<char>) -> ResponseView {
    ResponseView {
        status: STATUS_CONFLICT as int,
        headers: seq![text_header(X_INERTIA_LOCATION@, location)],
        body: Seq::empty(),
    }
}

impl Response {
    /// The response that makes the client load `location` in full.
    pub fn redirect(location: &str) -> (response: Response)
        ensures
            response@ == redirect(location@),
    {
        let mut headers: Vec<Header> = Vec::new();
        headers.push(Header::text(X_INERTIA_LOCATION, location));
        assert(header_views(headers@) =~= seq![text_header(X_INERTIA_LOCATION@, location@)]);
        Response { status: STATUS_CONFLICT, headers, body: String::new() }
    }
}

} // verus!
