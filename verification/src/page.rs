//! The page descriptor, the payload that describes it on the wire, and the
//! negotiation between the two kinds of response.

use crate::http::{
    find_header, header_views, text_header, Header, HeaderView, Request, RequestView, Response,
    ResponseView, CONTENT_TYPE, CONTENT_TYPE_HTML, CONTENT_TYPE_JSON, STATUS_OK,
};
use crate::json::{
    clone_value, encode, get_value, into_object, json_text, json_view, map_entries, null_value,
    object_value, text_value,
};
use crate::partial::{filter_props, partial_props};
use crate::text::{escape_attribute, escape_quotes, replace_token, replaced};
use crate::tree::{distinct_keys, lemma_position_unique, value_at, JsonView};
use crate::{
    X_INERTIA, X_INERTIA_ERROR_BAG, X_INERTIA_PARTIAL_COMPONENT, X_INERTIA_PARTIAL_EXCEPT,
    X_INERTIA_PARTIAL_ONLY,
};
use serde_json::Value;
use vstd::prelude::*;

verus! {

/// The token that a host template holds where the page payload belongs.
pub const DATA_PAGE_PLACEHOLDER: &'static str = "{{DATA_PAGE}}";

/// A page to be rendered: the component, its props, and the URL of the page
/// where the caller fixed one.
pub struct Inertia<T> {
    component: String,
    props: T,
    url: Option<String>,
}

/// The view of an optional string.
pub open spec fn optional_text(text: Option<String>) -> Option<Seq<char>> {
    match text {
        Some(t) => Some(t@),
        None => None,
    }
}

impl<T> Inertia<T> {
    /// The name of the component.
    pub closed spec fn component(&self) -> Seq<char> {
        self.component@
    }

    /// The props.
    pub closed spec fn props(&self) -> T {
        self.props
    }

    /// The URL, where one was fixed.
    pub closed spec fn url(&self) -> Option<Seq<char>> {
        optional_text(self.url)
    }

    /// The page `component` with the props `props` at `url`.
    pub fn new(component: String, props: T, url: String) -> (page: Self)
        ensures
            page.component() == component@,
            page.props() == props,
            page.url() == Some(url@),
    {
        Self { component, props, url: Some(url) }
    }

    /// The page `component` with the props `props`, at whatever URL it is
    /// asked for.
    pub fn without_url(component: String, props: T) -> (page: Self)
        ensures
            page.component() == component@,
            page.props() == props,
            page.url() is None,
    {
        Self { component, props, url: None }
    }
}

/// The payload that describes a page on the wire.
pub struct InertiaResponse<T> {
    component: String,
    props: T,
    url: String,
    version: Option<String>,
}

/// The JSON object that carries a payload: the members `component`, `props`,
/// `url` and `version`, in this order; a payload without a version has `null`
/// there.
pub open spec fn payload_tree(
    component: Seq<char>,
    props: JsonView,
    url: Seq<char>,
    version: Option<Seq<char>>,
) -> JsonView {
    JsonView::Object(
        seq![
            ("component"@, JsonView::Text(component)),
            ("props"@, props),
            ("url"@, JsonView::Text(url)),
            (
                "version"@,
                match version {
                    Some(v) => JsonView::Text(v),
                    None => JsonView::Null,
                },
            ),
        ],
    )
}

impl<T> InertiaResponse<T> {
    /// The name of the component.
    pub closed spec fn component(&self) -> Seq<char> {
        self.component@
    }

    /// The props.
    pub closed spec fn props(&self) -> T {
        self.props
    }

    /// The URL of the page.
    pub closed spec fn url(&self) -> Seq<char> {
        self.url@
    }

    /// The asset version, where there is one.
    pub closed spec fn version(&self) -> Option<Seq<char>> {
        optional_text(self.version)
    }

    /// The payload with these four parts.
    pub fn new(component: String, props: T, url: String, version: Option<String>) -> (payload: Self)
        ensures
            payload.component() == component@,
            payload.props() == props,
            payload.url() == url@,
            payload.version() == optional_text(version),
    {
        Self { component, props, url, version }
    }
}

/// The four parts of a payload.
pub struct PayloadView {
    pub component: Seq<char>,
    pub props: JsonView,
    pub url: Seq<char>,
    pub version: Option<Seq<char>>,
}

/// The payload that a JSON tree carries, if it carries one: the tree is an
/// object whose members `component` and `url` are strings, which has a member
/// `props`, and whose member `version` is a string, `null` or missing. Other
/// members do not count.
pub open spec fn payload_parts(tree: JsonView) -> Option<PayloadView> {
    match tree {
        JsonView::Object(members) => match (
            value_at(members, "component"@),
            value_at(members, "props"@),
            value_at(members, "url"@),
        ) {
            (Some(JsonView::Text(component)), Some(props), Some(JsonView::Text(url))) => match value_at(
                members,
                "version"@,
            ) {
                None | Some(JsonView::Null) => Some(
                    PayloadView { component, props, url, version: None },
                ),
                Some(JsonView::Text(version)) => Some(
                    PayloadView { component, props, url, version: Some(version) },
                ),
                _ => None,
            },
            _ => None,
        },
        _ => None,
    }
}

/// Reading a payload back from the JSON object that carries it gives the
/// component, props, URL and version that went into it.
pub proof fn law_payload_round_trip(
    component: Seq<char>,
    props: JsonView,
    url: Seq<char>,
    version: Option<Seq<char>>,
)
    ensures
        payload_parts(payload_tree(component, props, url, version)) == Some(
            PayloadView { component, props, url, version },
        ),
{
    let members = payload_tree(component, props, url, version)->Object_0;
    lemma_payload_keys();
    assert(members[0].0 == "component"@ && members[1].0 == "props"@);
    assert(members[2].0 == "url"@ && members[3].0 == "version"@);
    assert(distinct_keys(members));
    lemma_position_unique(members, "component"@, 0);
    lemma_position_unique(members, "props"@, 1);
    lemma_position_unique(members, "url"@, 2);
    lemma_position_unique(members, "version"@, 3);
}

impl InertiaResponse<Value> {
    /// The JSON object that carries this payload.
    pub open spec fn tree(&self) -> JsonView {
        payload_tree(self.component(), json_view(self.props()), self.url(), self.version())
    }

    /// The four parts of this payload.
    pub open spec fn parts(&self) -> PayloadView {
        PayloadView {
            component: self.component(),
            props: json_view(self.props()),
            url: self.url(),
            version: self.version(),
        }
    }

    /// The payload that `value` carries, if it carries one.
    pub fn from_value(value: Value) -> (payload: Option<Self>)
        ensures
            match payload {
                Some(p) => payload_parts(json_view(value)) == Some(p.parts()),
                None => payload_parts(json_view(value)) is None,
            },
    {
        let map = match into_object(value) {
            Ok(map) => map,
            Err(_) => {
                return None;
            },
        };
        let component = match get_value(&map, "component") {
            Some(found) => match found.as_str() {
                Some(text) => text.to_owned(),
                None => {
                    return None;
                },
            },
            None => {
                return None;
            },
        };
        let url = match get_value(&map, "url") {
            Some(found) => match found.as_str() {
                Some(text) => text.to_owned(),
                None => {
                    return None;
                },
            },
            None => {
                return None;
            },
        };
        let props = match get_value(&map, "props") {
            Some(found) => clone_value(found),
            None => {
                return None;
            },
        };
        let version = match get_value(&map, "version") {
            Some(found) => {
                if found.is_null() {
                    None
                } else {
                    match found.as_str() {
                        Some(text) => Some(text.to_owned()),
                        None => {
                            return None;
                        },
                    }
                }
            },
            None => None,
        };
        Some(InertiaResponse::new(component, props, url, version))
    }

    /// The payload as a JSON object.
    pub fn into_value(self) -> (value: Value)
        ensures
            json_view(value) == self.tree(),
    {
        let version = match self.version {
            Some(v) => text_value(v),
            None => null_value(),
        };
        let ghost members = payload_tree(
            self.component(),
            json_view(self.props()),
            self.url(),
            self.version(),
        )->Object_0;
        proof {
            lemma_payload_keys();
            assert(members[0].0 == "component"@ && members[1].0 == "props"@);
            assert(members[2].0 == "url"@ && members[3].0 == "version"@);
        }
        let mut map = serde_json::Map::new();
        map.insert("component".to_owned(), text_value(self.component));
        assert(map_entries(map) =~= members.take(1));
        map.insert("props".to_owned(), self.props);
        assert(map_entries(map) =~= members.take(2)) by {
            assert(members.take(1)[0] == members[0]);
        }
        map.insert("url".to_owned(), text_value(self.url));
        assert(map_entries(map) =~= members.take(3)) by {
            assert(members.take(2)[0] == members[0] && members.take(2)[1] == members[1]);
        }
        map.insert("version".to_owned(), version);
        assert(map_entries(map) =~= members) by {
            assert(members.take(3)[0] == members[0] && members.take(3)[1] == members[1]
                && members.take(3)[2] == members[2]);
        }
        object_value(map)
    }
}

/// The four keys of a payload differ from each other.
proof fn lemma_payload_keys()
    ensures
        "component"@ != "props"@,
        "component"@ != "url"@,
        "component"@ != "version"@,
        "props"@ != "url"@,
        "props"@ != "version"@,
        "url"@ != "version"@,
{
    reveal_strlit("component");
    reveal_strlit("props");
    reveal_strlit("url");
    reveal_strlit("version");
    assert("component"@.len() == 9);
    assert("props"@.len() == 5);
    assert("url"@.len() == 3);
    assert("version"@.len() == 7);
}

/// What goes into a host template for a full-page response.
pub struct HtmlResponseContext {
    data_page: String,
}

impl HtmlResponseContext {
    /// The payload as it stands in the document.
    pub closed spec fn data_page(&self) -> Seq<char> {
        self.data_page@
    }

    /// The context for the payload with the JSON text `payload`: the text with
    /// its double quotes escaped, so that it can be the value of an attribute.
    pub fn new(payload: &str) -> (context: Self)
        ensures
            context.data_page() == escape_quotes(payload@),
    {
        Self { data_page: escape_attribute(payload) }
    }

    /// The document: `template` with the payload in the place of every
    /// placeholder.
    pub fn render(&self, template: &str) -> (document: String)
        ensures
            document@ == replaced(template@, DATA_PAGE_PLACEHOLDER@, self.data_page()),
    {
        replace_token(template, DATA_PAGE_PLACEHOLDER, self.data_page.as_str())
    }
}

/// Why a page could not be answered.
#[derive(Debug, PartialEq, Eq, Structural)]
pub enum RenderError {
    /// The payload could not be written as JSON.
    Serialization,
}

/// Whether a request with these headers is a protocol request: one that
/// carries the marker header.
pub open spec fn is_protocol(headers: Seq<HeaderView>) -> bool {
    find_header(headers, X_INERTIA@) is Some
}

/// The header `name` as the response echoes it: the request's value under the
/// same name, or nothing where the request has no such header.
pub open spec fn echo(headers: Seq<HeaderView>, name: Seq<char>) -> Seq<HeaderView> {
    match find_header(headers, name) {
        Some(value) => seq![HeaderView { name, value }],
        None => Seq::empty(),
    }
}

/// The headers of the request that a protocol response echoes.
pub open spec fn echoes(headers: Seq<HeaderView>) -> Seq<HeaderView> {
    echo(headers, X_INERTIA_ERROR_BAG@) + echo(headers, X_INERTIA_PARTIAL_COMPONENT@) + echo(
        headers,
        X_INERTIA_PARTIAL_ONLY@,
    ) + echo(headers, X_INERTIA_PARTIAL_EXCEPT@)
}

/// The protocol response with the JSON text `payload` to a request with the
/// headers `headers`.
pub open spec fn protocol_response(payload: Seq<char>, headers: Seq<HeaderView>) -> ResponseView {
    ResponseView {
        status: STATUS_OK as int,
        headers: seq![
            text_header(CONTENT_TYPE@, CONTENT_TYPE_JSON@),
            text_header(X_INERTIA@, "true"@),
        ] + echoes(headers),
        body: payload,
    }
}

/// The full-page response that embeds the JSON text `payload` in `template`.
pub open spec fn full_page_response(payload: Seq<char>, template: Seq<char>) -> ResponseView {
    ResponseView {
        status: STATUS_OK as int,
        headers: seq![text_header(CONTENT_TYPE@, CONTENT_TYPE_HTML@)],
        body: replaced(template, DATA_PAGE_PLACEHOLDER@, escape_quotes(payload)),
    }
}

/// The response that carries the JSON text `payload` to `request`: the payload
/// itself for a protocol request, else the document made from `template`.
pub open spec fn negotiated(
    payload: Seq<char>,
    request: RequestView,
    template: Seq<char>,
) -> ResponseView {
    if is_protocol(request.headers) {
        protocol_response(payload, request.headers)
    } else {
        full_page_response(payload, template)
    }
}

/// The asset version as the payload carries it: none where it is empty.
pub open spec fn payload_version(version: Seq<char>) -> Option<Seq<char>> {
    if version.len() == 0 {
        None
    } else {
        Some(version)
    }
}

/// The props that `request` gets of a page: those that its selection leaves
/// where it is a protocol request, all of them where it is not.
pub open spec fn payload_props(
    props: JsonView,
    component: Seq<char>,
    request: RequestView,
) -> JsonView {
    if is_protocol(request.headers) {
        partial_props(props, component, request.headers)
    } else {
        props
    }
}

/// The URL of a page: the one that was fixed, else the target of the request.
pub open spec fn payload_url(url: Option<Seq<char>>, request: RequestView) -> Seq<char> {
    match url {
        Some(fixed) => fixed,
        None => request.uri,
    }
}

/// Adds to `headers` the request's header `name`, if it has one.
fn push_echo(headers: &mut Vec<Header>, request: &Request, name: &str)
    ensures
        header_views(final(headers)@) == header_views(old(headers)@) + echo(
            request@.headers,
            name@,
        ),
{
    let ghost before = headers@;
    match request.header(name) {
        Some(value) => {
            let header = Header { name: name.to_owned(), value: value.duplicate() };
            headers.push(header);
            assert(header_views(headers@) =~= header_views(before) + echo(
                request@.headers,
                name@,
            ));
        },
        None => {
            assert(header_views(headers@) =~= header_views(before) + echo(
                request@.headers,
                name@,
            ));
        },
    }
}

/// The response that carries the JSON text `payload` to `request`. A protocol
/// request gets the payload as it is, marked as a protocol response, with its
/// error-bag and partial-reload headers echoed. Any other request gets the
/// document that `template` gives with the escaped payload in the place of
/// the placeholder.
pub fn respond(payload: &str, request: &Request, template: &str) -> (response: Response)
    ensures
        response@ == negotiated(payload@, request@, template@),
{
    if request.has_header(X_INERTIA) {
        let mut headers: Vec<Header> = Vec::new();
        headers.push(Header::text(CONTENT_TYPE, CONTENT_TYPE_JSON));
        headers.push(Header::text(X_INERTIA, "true"));
        assert(header_views(headers@) =~= seq![
            text_header(CONTENT_TYPE@, CONTENT_TYPE_JSON@),
            text_header(X_INERTIA@, "true"@),
        ]);
        push_echo(&mut headers, request, X_INERTIA_ERROR_BAG);
        push_echo(&mut headers, request, X_INERTIA_PARTIAL_COMPONENT);
        push_echo(&mut headers, request, X_INERTIA_PARTIAL_ONLY);
        push_echo(&mut headers, request, X_INERTIA_PARTIAL_EXCEPT);
        assert(header_views(headers@) =~= protocol_response(
            payload@,
            request@.headers,
        ).headers);
        Response { status: STATUS_OK, headers, body: payload.to_owned() }
    } else {
        let context = HtmlResponseContext::new(payload);
        let mut headers: Vec<Header> = Vec::new();
        headers.push(Header::text(CONTENT_TYPE, CONTENT_TYPE_HTML));
        assert(header_views(headers@) =~= seq![text_header(CONTENT_TYPE@, CONTENT_TYPE_HTML@)]);
        Response { status: STATUS_OK, headers, body: context.render(template) }
    }
}

/// The props of a page once they have been turned into JSON: the value where
/// that has been done, and the error that says so where the props have no
/// JSON form.
pub fn converted_props(converted: Result<Value, serde_json::Error>) -> (props: Result<
    Value,
    RenderError,
>)
    ensures
        match converted {
            Ok(value) => props matches Ok(p) && p == value,
            Err(_) => props matches Err(error) && error == RenderError::Serialization,
        },
{
    match converted {
        Ok(value) => Ok(value),
        Err(_) => Err(RenderError::Serialization),
    }
}

/// What is answered to `request` once the encoder has done its work on the
/// payload: where it has written a text, the response that carries that text;
/// where it has given up, the error that says so.
pub open spec fn answered(
    encoding: Option<Seq<char>>,
    request: RequestView,
    template: Seq<char>,
) -> Result<ResponseView, RenderError> {
    match encoding {
        Some(text) => Ok(negotiated(text, request, template)),
        None => Err(RenderError::Serialization),
    }
}

/// The mathematical value of what a page is answered with.
pub open spec fn answer_view(result: Result<Response, RenderError>) -> Result<
    ResponseView,
    RenderError,
> {
    match result {
        Ok(response) => Ok(response@),
        Err(error) => Err(error),
    }
}

/// The text that the encoder has written, if it has written one.
pub open spec fn encoded_text(encoded: Result<String, serde_json::Error>) -> Option<Seq<char>> {
    match encoded {
        Ok(text) => Some(text@),
        Err(_) => None,
    }
}

/// The response to `request` once the encoder has done its work on the
/// payload: where it has written the payload, the response that carries that
/// text; where it has given up, the error that says so.
pub fn respond_encoded(
    encoded: Result<String, serde_json::Error>,
    request: &Request,
    template: &str,
) -> (result: Result<Response, RenderError>)
    ensures
        answer_view(result) == answered(encoded_text(encoded), request@, template@),
{
    match encoded {
        Ok(text) => Ok(respond(text.as_str(), request, template)),
        Err(_) => Err(RenderError::Serialization),
    }
}

impl Inertia<Value> {
    /// The JSON object that describes this page to `request` when the asset
    /// version is `version`.
    pub open spec fn payload_for(&self, request: RequestView, version: Seq<char>) -> JsonView {
        payload_tree(
            self.component(),
            payload_props(json_view(self.props()), self.component(), request),
            payload_url(self.url(), request),
            payload_version(version),
        )
    }

    /// The payload that describes this page to `request` when the asset
    /// version is `version`. A protocol request that makes a partial reload
    /// gets the props that it selects; an empty version is left out; a page
    /// without a URL takes the target of the request.
    pub fn payload(self, request: &Request, version: &str) -> (payload: InertiaResponse<Value>)
        ensures
            payload.tree() == self.payload_for(request@, version@),
    {
        let props = if request.has_header(X_INERTIA) {
            filter_props(self.props, self.component.as_str(), request)
        } else {
            self.props
        };
        let url = match self.url {
            Some(fixed) => fixed,
            None => request.uri.clone(),
        };
        let version = if version.is_empty() {
            None
        } else {
            Some(version.to_owned())
        };
        InertiaResponse::new(self.component, props, url, version)
    }

    /// The response to `request` for this page when the asset version is
    /// `version`: the payload as JSON for a protocol request, else the HTML
    /// document made from `template`. It succeeds just where the encoder
    /// writes the payload as JSON, and else says that it did not.
    pub fn into_response(self, request: &Request, version: &str, template: &str) -> (result: Result<
        Response,
        RenderError,
    >)
        ensures
            answer_view(result) == answered(
                json_text(self.payload_for(request@, version@)),
                request@,
                template@,
            ),
    {
        let value = self.payload(request, version).into_value();
        respond_encoded(encode(&value), request, template)
    }
}

} // verus!
