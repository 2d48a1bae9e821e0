//! The version guard: a stage in front of the handlers that answers a protocol
//! request for a stale asset version with a forced reload.

use crate::http::{
    find_header, redirect, HeaderValue, HeaderValueView, Request, RequestView, Response,
};
use crate::page::is_protocol;
use crate::text::same_text;
use crate::{X_INERTIA, X_INERTIA_VERSION};
use vstd::prelude::*;
use vstd::string::StringExecFns;

verus! {

/// The path that a client is sent to when its asset version is stale.
pub const VERSION_CONFLICT_PATH: &'static str = "/inertia-rs/version-conflict";

/// The states of the guard.
pub enum GuardState {
    /// The request goes on to the handlers, and their response goes back as
    /// it is.
    PassThrough,
    /// The version that the request declares has to be compared.
    VersionCheck,
    /// The request is answered here, and no handler sees it.
    Conflict,
}

/// The state in which the guard takes up a request: the version is checked
/// for a `GET` request that carries the protocol marker, and for no other.
pub open spec fn entry_state(request: RequestView) -> GuardState {
    if request.method == "GET"@ && is_protocol(request.headers) {
        GuardState::VersionCheck
    } else {
        GuardState::PassThrough
    }
}

/// The asset version that a request declares: the text of its version header,
/// the empty string where the value of that header is no text, and nothing
/// where the header is missing.
pub open spec fn declared_version(request: RequestView) -> Option<Seq<char>> {
    match find_header(request.headers, X_INERTIA_VERSION@) {
        Some(HeaderValueView::Text(text)) => Some(text),
        Some(HeaderValueView::Opaque(_)) => Some(Seq::empty()),
        None => None,
    }
}

/// The state in which the guard leaves a request when it expects the version
/// `expected`: a checked request passes where it declares just that version,
/// and is in conflict where it declares another one or none.
pub open spec fn exit_state(request: RequestView, expected: Seq<char>) -> GuardState {
    match entry_state(request) {
        GuardState::VersionCheck => if declared_version(request) == Some(expected) {
            GuardState::PassThrough
        } else {
            GuardState::Conflict
        },
        _ => GuardState::PassThrough,
    }
}

/// Where a client with a stale version is sent: the conflict path with the
/// path of its request as the `location` parameter.
pub open spec fn conflict_location(path: Seq<char>) -> Seq<char> {
    VERSION_CONFLICT_PATH@ + "?location="@ + path
}

/// What the guard decides about a request.
#[derive(Debug, PartialEq, Eq)]
pub enum Verdict {
    /// The request goes on to the handlers.
    PassThrough,
    /// The request is answered with this response.
    Conflict(Response),
}

/// The version guard as it is configured: the asset version that it expects.
pub struct VersionMiddleware {
    version: String,
}

impl VersionMiddleware {
    /// The version that the guard expects.
    pub closed spec fn version(&self) -> Seq<char> {
        self.version@
    }

    /// A guard that expects `version`.
    pub fn new(version: String) -> (guard: Self)
        ensures
            guard.version() == version@,
    {
        Self { version }
    }

    /// The guard in front of `service`.
    pub fn new_transform<S>(&self, service: S) -> (stage: VersionMiddlewareService<S>)
        ensures
            stage.version() == self.version(),
            stage.handler() == service,
    {
        VersionMiddlewareService { service, version: self.version.clone() }
    }
}

/// The version guard in front of a service.
pub struct VersionMiddlewareService<S> {
    service: S,
    version: String,
}

impl<S> VersionMiddlewareService<S> {
    /// The version that the guard expects.
    pub closed spec fn version(&self) -> Seq<char> {
        self.version@
    }

    /// The service behind the guard.
    pub closed spec fn handler(&self) -> S {
        self.service
    }

    /// The service behind the guard.
    pub fn service(&self) -> (service: &S)
        ensures
            *service == self.handler(),
    {
        &self.service
    }

    /// Decides about `request`. A `GET` request that carries the protocol
    /// marker and does not declare the expected version is in conflict: it is
    /// answered with a redirect to the conflict location for its path. Every
    /// other request passes.
    pub fn check(&self, request: &Request) -> (verdict: Verdict)
        ensures
            match verdict {
                Verdict::PassThrough => exit_state(request@, self.version())
                    is PassThrough,
                Verdict::Conflict(response) => exit_state(request@, self.version()) is Conflict
                    && response@ == redirect(conflict_location(request@.path)),
            },
    {
        if !(same_text(request.method.as_str(), "GET") && request.has_header(X_INERTIA)) {
            return Verdict::PassThrough;
        }
        let matches = match request.header(X_INERTIA_VERSION) {
            Some(HeaderValue::Text(text)) => *text == self.version,
            Some(HeaderValue::Opaque(_)) => self.version.as_str().is_empty(),
            None => false,
        };
        if matches {
            assert(declared_version(request@) =~= Some(self.version()));
            Verdict::PassThrough
        } else {
            let mut location = VERSION_CONFLICT_PATH.to_owned();
            location.append("?location=");
            location.append(request.path.as_str());
            Verdict::Conflict(Response::redirect(location.as_str()))
        }
    }

    /// Answers `request`: with the redirect where the request is in conflict,
    /// and the service is not called then; else with what the service
    /// answers, as it is.
    pub fn call(&self, request: Request) -> (response: Response) where S: Fn(Request) -> Response
        requires
            exit_state(request@, self.version()) is PassThrough ==> self.handler().requires(
                (request,),
            ),
        ensures
            exit_state(request@, self.version()) is Conflict ==> response@ == redirect(
                conflict_location(request@.path),
            ),
            exit_state(request@, self.version()) is PassThrough ==> self.handler().ensures(
                (request,),
                response,
            ),
    {
        match self.check(&request) {
            Verdict::Conflict(response) => response,
            Verdict::PassThrough => (self.service)(request),
        }
    }
}

/// A request that is no `GET` request, or carries no protocol marker, passes
/// whatever version it declares.
pub proof fn law_unchecked_requests_pass(request: RequestView, expected: Seq<char>)
    requires
        request.method != "GET"@ || !is_protocol(request.headers),
    ensures
        exit_state(request, expected) is PassThrough,
{
}

/// A checked request passes just when it declares the expected version; one
/// that declares another version or none is in conflict.
pub proof fn law_checked_requests(request: RequestView, expected: Seq<char>)
    requires
        request.method == "GET"@,
        is_protocol(request.headers),
    ensures
        exit_state(request, expected) is PassThrough <==> declared_version(request) == Some(
            expected,
        ),
        exit_state(request, expected) is Conflict <==> declared_version(request) != Some(
            expected,
        ),
{
}

} // verus!
