//! A page that takes its URL from the request it answers.

use crate::http::{Request, Response};
use crate::json::{json_text, json_view};
use crate::page::{
    answer_view, answered, converted_props, payload_props, payload_tree, payload_version, Inertia,
    RenderError,
};
use serde_json::Value;
use vstd::prelude::*;

verus! {

/// A component and its props, to be answered at the URL of the request.
pub struct InertiaResponder<T> {
    component: String,
    props: T,
}

impl<T> InertiaResponder<T> {
    /// The name of the component.
    pub closed spec fn component(&self) -> Seq<char> {
        self.component@
    }

    /// The props.
    pub closed spec fn props(&self) -> T {
        self.props
    }

    /// A responder for `component` with the props `props`.
    pub fn new(component: String, props: T) -> (responder: Self)
        ensures
            responder.component() == component@,
            responder.props() == props,
    {
        Self { component, props }
    }
}

impl InertiaResponder<Value> {
    /// A responder for `component` with the props that turning them into JSON
    /// has given; where the props have no JSON form, the error that says so.
    pub fn converted(component: String, props: Result<Value, serde_json::Error>) -> (result: Result<
        Self,
        RenderError,
    >)
        ensures
            match props {
                Ok(value) => result matches Ok(responder) && responder.component() == component@
                    && responder.props() == value,
                Err(_) => result matches Err(error) && error == RenderError::Serialization,
            },
    {
        match converted_props(props) {
            Ok(value) => Ok(Self::new(component, value)),
            Err(error) => Err(error),
        }
    }

    /// The response to `request` for this component when the asset version is
    /// `version`: that of the page at the target of the request. It succeeds
    /// just where the encoder writes the payload as JSON.
    pub fn respond_to(self, request: &Request, version: &str, template: &str) -> (result: Result<
        Response,
        RenderError,
    >)
        ensures
            answer_view(result) == answered(
                json_text(
                    payload_tree(
                        self.component(),
                        payload_props(json_view(self.props()), self.component(), request@),
                        request@.uri,
                        payload_version(version@),
                    ),
                ),
                request@,
                template@,
            ),
    {
        let page = Inertia::new(self.component, self.props, request.uri.clone());
        page.into_response(request, version, template)
    }
}

} // verus!
