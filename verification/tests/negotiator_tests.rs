use actix_inertia::http::{Header, HeaderValue, Request, Response};
use actix_inertia::page::{
    converted_props, respond, respond_encoded, HtmlResponseContext, InertiaResponse, RenderError,
};
use actix_inertia::partial::{filter_props, should_filter};
use actix_inertia::responder::InertiaResponder;
use actix_inertia::{
    Inertia, X_INERTIA, X_INERTIA_ERROR_BAG, X_INERTIA_PARTIAL_COMPONENT,
    X_INERTIA_PARTIAL_EXCEPT, X_INERTIA_PARTIAL_ONLY,
};
use serde_json::Value;

const TEMPLATE: &str = "<html><div id=\"app\" data-page=\"{{DATA_PAGE}}\"></div></html>";

fn object(members: Vec<(&str, Value)>) -> Value {
    let mut map = serde_json::Map::new();
    for (key, value) in members {
        map.insert(key.to_string(), value);
    }
    Value::Object(map)
}

fn abc() -> Value {
    object(vec![("a", Value::from(1)), ("b", Value::from("two")), ("c", Value::from(vec![3, 4]))])
}

fn request(method: &str, uri: &str, headers: Vec<(&str, &str)>) -> Request {
    let path = uri.split('?').next().unwrap_or("").to_string();
    Request {
        method: method.to_string(),
        path,
        uri: uri.to_string(),
        headers: headers.into_iter().map(|(name, value)| Header::text(name, value)).collect(),
    }
}

fn keys(value: &Value) -> Vec<String> {
    value.as_object().unwrap().keys().cloned().collect()
}

fn header<'a>(response: &'a Response, name: &str) -> Option<&'a HeaderValue> {
    response.headers.iter().find(|header| header.name.eq_ignore_ascii_case(name)).map(|h| &h.value)
}

fn text(value: &str) -> HeaderValue {
    HeaderValue::Text(value.to_string())
}

fn body_of(response: &Response) -> Value {
    serde_json::from_str(&response.body).unwrap()
}

#[test]
fn protocol_request_without_partial_headers_gets_all_props() {
    let page = Inertia::new("Users".to_string(), abc(), "/users".to_string());
    let response =
        page.into_response(&request("GET", "/users", vec![(X_INERTIA, "true")]), "", "").unwrap();
    assert_eq!(body_of(&response)["props"], abc());
    assert_eq!(keys(&body_of(&response)["props"]), vec!["a", "b", "c"]);
}

#[test]
fn only_list_keeps_the_listed_props_in_page_order() {
    let req = request(
        "GET",
        "/users",
        vec![(X_INERTIA, "true"), (X_INERTIA_PARTIAL_COMPONENT, "Users"), (X_INERTIA_PARTIAL_ONLY, "a,c")],
    );
    let out = filter_props(abc(), "Users", &req);
    assert_eq!(out, object(vec![("a", Value::from(1)), ("c", Value::from(vec![3, 4]))]));
    assert_eq!(keys(&out), vec!["a", "c"]);
}

#[test]
fn only_list_order_does_not_change_the_order_of_the_props() {
    let props = object(vec![("z", Value::from(1)), ("m", Value::from(2)), ("a", Value::from(3))]);
    let req = request("GET", "/", vec![(X_INERTIA_PARTIAL_ONLY, "a, z")]);
    let out = filter_props(props, "Users", &req);
    assert_eq!(keys(&out), vec!["z", "a"]);
    assert_eq!(out["z"], 1);
    assert_eq!(out["a"], 3);
}

#[test]
fn except_list_wins_over_only_list() {
    let req = request(
        "GET",
        "/users",
        vec![
            (X_INERTIA_PARTIAL_COMPONENT, "Users"),
            (X_INERTIA_PARTIAL_ONLY, "a,b,c"),
            (X_INERTIA_PARTIAL_EXCEPT, "b"),
        ],
    );
    let out = filter_props(abc(), "Users", &req);
    assert_eq!(keys(&out), vec!["a", "c"]);
    assert_eq!(out["a"], 1);
    assert_eq!(out["c"], Value::from(vec![3, 4]));
}

#[test]
fn except_list_alone_removes_its_keys_and_keeps_the_order() {
    let props = object(vec![
        ("d", Value::from(4)),
        ("a", Value::from(1)),
        ("c", Value::from(3)),
        ("b", Value::from(2)),
    ]);
    let req = request("GET", "/", vec![(X_INERTIA_PARTIAL_EXCEPT, " a , unknown ,, d")]);
    let out = filter_props(props, "Users", &req);
    assert_eq!(keys(&out), vec!["c", "b"]);
}

#[test]
fn filter_is_active_only_for_the_named_component() {
    let matching = request(
        "GET",
        "/",
        vec![(X_INERTIA_PARTIAL_COMPONENT, "Users"), (X_INERTIA_PARTIAL_ONLY, "a")],
    );
    assert_eq!(keys(&filter_props(abc(), "Users", &matching)), vec!["a"]);

    let other = request(
        "GET",
        "/",
        vec![
            (X_INERTIA_PARTIAL_COMPONENT, "Posts"),
            (X_INERTIA_PARTIAL_ONLY, "a"),
            (X_INERTIA_PARTIAL_EXCEPT, "c"),
        ],
    );
    assert_eq!(filter_props(abc(), "Users", &other), abc());

    let unnamed = request("GET", "/", vec![(X_INERTIA_PARTIAL_ONLY, "a")]);
    assert_eq!(keys(&filter_props(abc(), "Users", &unnamed)), vec!["a"]);

    let none = request("GET", "/", vec![]);
    assert_eq!(filter_props(abc(), "Users", &none), abc());
}

#[test]
fn should_filter_follows_the_component_header_first() {
    let users = "Users".to_string();
    let posts = "Posts".to_string();
    let list = "a".to_string();
    assert!(should_filter("Users", Some(&users), None, None));
    assert!(!should_filter("Users", Some(&posts), Some(&list), Some(&list)));
    assert!(should_filter("Users", None, Some(&list), None));
    assert!(should_filter("Users", None, None, Some(&list)));
    assert!(!should_filter("Users", None, None, None));
}

#[test]
fn matching_component_without_lists_keeps_all_props() {
    let req = request("GET", "/", vec![(X_INERTIA_PARTIAL_COMPONENT, "Users")]);
    assert_eq!(filter_props(abc(), "Users", &req), abc());
}

#[test]
fn empty_and_unknown_lists_are_tolerated() {
    let empty_only = request("GET", "/", vec![(X_INERTIA_PARTIAL_ONLY, " , ")]);
    assert_eq!(filter_props(abc(), "Users", &empty_only), object(vec![]));
    let empty_except = request("GET", "/", vec![(X_INERTIA_PARTIAL_EXCEPT, "")]);
    assert_eq!(filter_props(abc(), "Users", &empty_except), abc());
    let unknown = request("GET", "/", vec![(X_INERTIA_PARTIAL_ONLY, "x,y")]);
    assert_eq!(filter_props(abc(), "Users", &unknown), object(vec![]));
}

#[test]
fn props_that_are_no_object_pass_unchanged() {
    let req = request("GET", "/", vec![(X_INERTIA_PARTIAL_ONLY, "a")]);
    assert_eq!(filter_props(Value::from(vec![1, 2]), "Users", &req), Value::from(vec![1, 2]));
    assert_eq!(filter_props(Value::Null, "Users", &req), Value::Null);
    assert_eq!(filter_props(Value::from("a"), "Users", &req), Value::from("a"));
}

#[test]
fn unreadable_partial_headers_are_not_read() {
    let mut req = request("GET", "/", vec![(X_INERTIA_PARTIAL_ONLY, "a")]);
    req.headers.insert(
        0,
        Header {
            name: X_INERTIA_PARTIAL_COMPONENT.to_string(),
            value: HeaderValue::Opaque(vec![0xc3, 0x28]),
        },
    );
    assert_eq!(keys(&filter_props(abc(), "Users", &req)), vec!["a"]);
}

#[test]
fn header_names_are_read_without_regard_to_case_and_the_first_wins() {
    let req = request(
        "GET",
        "/",
        vec![("x-inertia-partial-data", "a"), ("X-INERTIA-PARTIAL-DATA", "b")],
    );
    assert_eq!(req.header("X-Inertia-Partial-Data"), Some(&text("a")));
    assert_eq!(req.header_text("x-Inertia-partial-Data"), Some(&"a".to_string()));
    assert!(req.has_header("X-Inertia-Partial-Data"));
    assert!(!req.has_header("X-Inertia-Partial"));
    assert_eq!(req.header("X-Inertia"), None);
    assert_eq!(keys(&filter_props(abc(), "Users", &req)), vec!["a"]);
}

#[test]
fn header_values_are_duplicated_as_they_are() {
    assert_eq!(text("x").duplicate(), text("x"));
    assert_eq!(HeaderValue::Opaque(vec![1, 2, 255]).duplicate(), HeaderValue::Opaque(vec![1, 2, 255]));
    assert_eq!(HeaderValue::Opaque(vec![]).duplicate(), HeaderValue::Opaque(vec![]));
}

#[test]
fn protocol_response_is_json_with_the_marker() {
    let page = Inertia::new("Users".to_string(), abc(), "/users?page=2".to_string());
    let response = page
        .into_response(&request("POST", "/other", vec![("x-inertia", "true")]), "v2", TEMPLATE)
        .unwrap();
    assert_eq!(response.status, 200);
    assert_eq!(header(&response, "Content-Type"), Some(&text("application/json")));
    assert_eq!(header(&response, X_INERTIA), Some(&text("true")));
    assert_eq!(response.headers.len(), 2);
    assert_eq!(
        response.body,
        "{\"component\":\"Users\",\"props\":{\"a\":1,\"b\":\"two\",\"c\":[3,4]},\"url\":\"/users?page=2\",\"version\":\"v2\"}"
    );
}

#[test]
fn payload_version_is_null_when_the_version_is_empty() {
    let page = Inertia::new("Users".to_string(), object(vec![]), "/users".to_string());
    let response =
        page.into_response(&request("GET", "/users", vec![(X_INERTIA, "true")]), "", "").unwrap();
    assert_eq!(
        response.body,
        "{\"component\":\"Users\",\"props\":{},\"url\":\"/users\",\"version\":null}"
    );
}

#[test]
fn page_without_url_takes_the_target_of_the_request() {
    let page = Inertia::without_url("Users".to_string(), Value::Null);
    let payload = page.payload(&request("GET", "/users?q=1", vec![]), "v1").into_value();
    assert_eq!(payload["url"], "/users?q=1");
    assert_eq!(payload["props"], Value::Null);
    assert_eq!(payload["version"], "v1");
    assert_eq!(keys(&payload), vec!["component", "props", "url", "version"]);
}

#[test]
fn responder_answers_at_the_target_of_the_request() {
    let responder = InertiaResponder::new("Hello".to_string(), object(vec![("message", Value::from("hi"))]));
    let response = responder
        .respond_to(&request("GET", "/hello?x=1", vec![(X_INERTIA, "true")]), "", TEMPLATE)
        .unwrap();
    let body = body_of(&response);
    assert_eq!(body["component"], "Hello");
    assert_eq!(body["url"], "/hello?x=1");
    assert_eq!(body["props"]["message"], "hi");
    assert_eq!(body["version"], Value::Null);
}

#[test]
fn protocol_response_echoes_error_bag_and_partial_headers() {
    let mut req = request(
        "GET",
        "/users",
        vec![
            (X_INERTIA_PARTIAL_EXCEPT, "c"),
            (X_INERTIA, "true"),
            (X_INERTIA_PARTIAL_ONLY, "a,c"),
            (X_INERTIA_PARTIAL_COMPONENT, "Users"),
        ],
    );
    req.headers.push(Header {
        name: "x-inertia-error-bag".to_string(),
        value: HeaderValue::Opaque(vec![0xe9]),
    });
    let page = Inertia::new("Users".to_string(), abc(), "/users".to_string());
    let response = page.into_response(&req, "", "").unwrap();
    assert_eq!(
        response.headers,
        vec![
            Header::text("Content-Type", "application/json"),
            Header::text(X_INERTIA, "true"),
            Header { name: X_INERTIA_ERROR_BAG.to_string(), value: HeaderValue::Opaque(vec![0xe9]) },
            Header::text(X_INERTIA_PARTIAL_COMPONENT, "Users"),
            Header::text(X_INERTIA_PARTIAL_ONLY, "a,c"),
            Header::text(X_INERTIA_PARTIAL_EXCEPT, "c"),
        ]
    );
    assert_eq!(keys(&body_of(&response)["props"]), vec!["a"]);
}

#[test]
fn full_page_response_embeds_the_escaped_payload() {
    let page = Inertia::new("Users".to_string(), object(vec![("a", Value::from("x\"y"))]), "/users".to_string());
    let response = page.into_response(&request("GET", "/users", vec![]), "v1", TEMPLATE).unwrap();
    assert_eq!(response.status, 200);
    assert_eq!(response.headers, vec![Header::text("Content-Type", "text/html; charset=utf-8")]);
    assert_eq!(
        response.body,
        "<html><div id=\"app\" data-page=\"{&quot;component&quot;:&quot;Users&quot;,&quot;props&quot;:{&quot;a&quot;:&quot;x\\&quot;y&quot;},&quot;url&quot;:&quot;/users&quot;,&quot;version&quot;:&quot;v1&quot;}\"></div></html>"
    );
}

#[test]
fn full_page_response_does_not_filter_props() {
    let req = request(
        "GET",
        "/users",
        vec![(X_INERTIA_PARTIAL_COMPONENT, "Users"), (X_INERTIA_PARTIAL_ONLY, "a")],
    );
    let page = Inertia::new("Users".to_string(), abc(), "/users".to_string());
    let payload = page.payload(&req, "").into_value();
    assert_eq!(payload["props"], abc());
}

#[test]
fn respond_frames_a_given_payload() {
    let json = "{\"k\":\"v\"}";
    let protocol = respond(json, &request("GET", "/", vec![(X_INERTIA, "true")]), "{{DATA_PAGE}}");
    assert_eq!(protocol.body, json);
    let full = respond(json, &request("GET", "/", vec![]), "[{{DATA_PAGE}}|{{DATA_PAGE}}]");
    assert_eq!(full.body, "[{&quot;k&quot;:&quot;v&quot;}|{&quot;k&quot;:&quot;v&quot;}]");
    let bare = respond(json, &request("GET", "/", vec![]), "no placeholder");
    assert_eq!(bare.body, "no placeholder");
}

#[test]
fn html_context_escapes_and_renders() {
    let context = HtmlResponseContext::new("\"a\"");
    assert_eq!(context.render("<{{DATA_PAGE}}>"), "<&quot;a&quot;>");
}

#[test]
fn payload_round_trips_through_json_text() {
    for version in [None, Some("v2".to_string())] {
        let payload = InertiaResponse::new(
            "Users".to_string(),
            abc(),
            "/users?sort=\"name\"".to_string(),
            version.clone(),
        );
        let value = payload.into_value();
        let text = serde_json::to_string(&value).unwrap();
        let decoded: Value = serde_json::from_str(&text).unwrap();
        assert_eq!(decoded, value);
        let back = InertiaResponse::from_value(decoded).unwrap().into_value();
        assert_eq!(back["component"], "Users");
        assert_eq!(back["props"], abc());
        assert_eq!(keys(&back["props"]), vec!["a", "b", "c"]);
        assert_eq!(back["url"], "/users?sort=\"name\"");
        assert_eq!(back["version"], Value::from(version));
    }
}

#[test]
fn from_value_reads_only_payloads() {
    let good = object(vec![
        ("url", Value::from("/u")),
        ("extra", Value::from(true)),
        ("props", Value::from(7)),
        ("component", Value::from("C")),
    ]);
    let payload = InertiaResponse::from_value(good).unwrap().into_value();
    assert_eq!(
        payload,
        object(vec![
            ("component", Value::from("C")),
            ("props", Value::from(7)),
            ("url", Value::from("/u")),
            ("version", Value::Null),
        ])
    );
    let no_props = object(vec![("url", Value::from("/u")), ("component", Value::from("C"))]);
    assert!(InertiaResponse::from_value(no_props).is_none());
    let bad_component =
        object(vec![("component", Value::from(1)), ("props", Value::Null), ("url", Value::from("/u"))]);
    assert!(InertiaResponse::from_value(bad_component).is_none());
    let bad_url = object(vec![
        ("component", Value::from("C")),
        ("props", Value::Null),
        ("url", Value::Null),
    ]);
    assert!(InertiaResponse::from_value(bad_url).is_none());
    let bad_version = object(vec![
        ("component", Value::from("C")),
        ("props", Value::Null),
        ("url", Value::from("/u")),
        ("version", Value::from(2)),
    ]);
    assert!(InertiaResponse::from_value(bad_version).is_none());
    assert!(InertiaResponse::from_value(Value::from("text")).is_none());
}

#[test]
fn an_encoder_that_gives_up_is_a_serialization_error() {
    let failure = serde_json::from_str::<Value>("{").unwrap_err();
    let result = respond_encoded(Err(failure), &request("GET", "/", vec![]), TEMPLATE);
    assert_eq!(result, Err(RenderError::Serialization));
    let failure = serde_json::from_str::<Value>("").unwrap_err();
    let result =
        respond_encoded(Err(failure), &request("GET", "/", vec![(X_INERTIA, "true")]), TEMPLATE);
    assert_eq!(result, Err(RenderError::Serialization));
}

#[test]
fn an_encoded_payload_is_answered() {
    let result = respond_encoded(
        Ok("{}".to_string()),
        &request("GET", "/", vec![(X_INERTIA, "true")]),
        TEMPLATE,
    );
    assert_eq!(result.unwrap().body, "{}");
}

#[test]
fn props_without_a_json_form_are_a_serialization_error() {
    let mut keyed_by_pairs = std::collections::BTreeMap::new();
    keyed_by_pairs.insert((1, 2), 3);
    let failed = serde_json::to_value(&keyed_by_pairs);
    assert!(failed.is_err());
    assert_eq!(converted_props(failed), Err(RenderError::Serialization));
}

#[test]
fn props_with_a_json_form_are_handed_on() {
    let converted = serde_json::to_value(vec![("a", 1)]);
    assert_eq!(
        converted_props(converted),
        Ok(Value::from(vec![Value::from(vec![Value::from("a"), Value::from(1)])]))
    );
    assert_eq!(converted_props(Ok(abc())), Ok(abc()));
}

#[test]
fn a_responder_is_made_from_converted_props_only() {
    let mut keyed_by_pairs = std::collections::BTreeMap::new();
    keyed_by_pairs.insert((1, 2), 3);
    let failed = InertiaResponder::converted("Hello".to_string(), serde_json::to_value(&keyed_by_pairs));
    assert!(matches!(failed, Err(RenderError::Serialization)));
    let made = InertiaResponder::converted("Hello".to_string(), serde_json::to_value(vec![1, 2]));
    let response = match made {
        Ok(responder) => responder
            .respond_to(&request("GET", "/hello", vec![(X_INERTIA, "true")]), "", TEMPLATE)
            .unwrap(),
        Err(_) => panic!("the props have a JSON form"),
    };
    assert_eq!(body_of(&response)["props"], Value::from(vec![1, 2]));
    assert_eq!(body_of(&response)["component"], "Hello");
}
