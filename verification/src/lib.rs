//! The server side of the Inertia protocol: a page is answered either as a full
//! HTML document or as a JSON payload, a partial reload narrows the props of
//! that payload, and a guard in front of the handlers turns a stale asset
//! version into a forced reload.

use vstd::prelude::*;

pub mod example;
pub mod http;
pub mod json;
pub mod page;
pub mod partial;
pub mod responder;
pub mod shared;
pub mod text;
pub mod tree;
pub mod version;

pub use example::example_handler;
pub use page::Inertia;
pub use shared::ResponseFactory;
pub use version::VersionMiddleware;

verus! {

/// Marks a request as a protocol request, and a response as its answer.
pub const X_INERTIA: &'static str = "X-Inertia";

/// Carries the asset version that the client knows.
pub const X_INERTIA_VERSION: &'static str = "X-Inertia-Version";

/// Carries the location that the client has to load in full.
pub const X_INERTIA_LOCATION: &'static str = "X-Inertia-Location";

/// Carries the scope of the client's validation errors.
pub const X_INERTIA_ERROR_BAG: &'static str = "X-Inertia-Error-Bag";

/// Names the component that a partial reload is meant for.
pub const X_INERTIA_PARTIAL_COMPONENT: &'static str = "X-Inertia-Partial-Component";

/// Lists the props that a partial reload asks for.
pub const X_INERTIA_PARTIAL_ONLY: &'static str = "X-Inertia-Partial-Data";

/// Lists the props that a partial reload leaves out.
pub const X_INERTIA_PARTIAL_EXCEPT: &'static str = "X-Inertia-Partial-Except";

} // verus!
