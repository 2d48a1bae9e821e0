//! A handler that renders one fixed page, as a model for handlers.

use crate::http::{Request, RequestView, Response};
use crate::json::{json_text, map_entries, object_value, text_value};
use crate::page::{
    answer_view, answered, payload_props, payload_tree, payload_version, RenderError,
};
use crate::shared::{merged_props, ResponseFactory};
use crate::tree::{Entry, JsonView};
use vstd::prelude::*;

verus! {

/// The props of the example page: the one member `prop_key` with the string
/// `prop_value`.
pub open spec fn example_props() -> JsonView {
    JsonView::Object(seq![("prop_key"@, JsonView::Text("prop_value"@))])
}

/// The payload of the example page for `request` when the asset version is
/// `version` and `shared` are the shared props.
pub open spec fn example_payload(
    request: RequestView,
    shared: Seq<Entry>,
    version: Seq<char>,
) -> JsonView {
    payload_tree(
        "ComponentName"@,
        payload_props(merged_props(shared, example_props()), "ComponentName"@, request),
        request.uri,
        payload_version(version),
    )
}

/// Answers `request` with the page `ComponentName` at the target of the
/// request, with the props of the example and the shared props of `factory`,
/// for a version that `factory` resolves. It succeeds just where the encoder
/// writes the payload as JSON.
pub fn example_handler(request: &Request, factory: &ResponseFactory, template: &str) -> (result:
    Result<Response, RenderError>)
    ensures
        exists|version: Seq<char>|
            #[trigger] factory.may_yield(version) && answer_view(result) == answered(
                json_text(example_payload(request@, factory.shared(), version)),
                request@,
                template@,
            ),
{
    let mut props = serde_json::Map::new();
    props.insert("prop_key".to_owned(), text_value("prop_value".to_owned()));
    assert(map_entries(props) =~= seq![("prop_key"@, JsonView::Text("prop_value"@))]);
    let page = factory.render("ComponentName", object_value(props), request.uri.as_str());
    let version = factory.get_version();
    let result = page.into_response(request, version.as_str(), template);
    assert(factory.may_yield(version@) && answer_view(result) == answered(
        json_text(example_payload(request@, factory.shared(), version@)),
        request@,
        template@,
    ));
    result
}

} // verus!
