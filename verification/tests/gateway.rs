//! Engine-level tests: resolver planning, cache policy, query parsing, and
//! the executor's per-field error isolation and projection.

use gql_gateway::cache::{CacheDirective, ResponseCache, UpstreamCall};
use gql_gateway::entities::Item;
use gql_gateway::executor::{
    finish_request, reject_response, start_request, GatewayOutcome, UpstreamError,
};
use gql_gateway::query::{parse_request, FieldQuery};
use gql_gateway::records::encode_item_list;
use gql_gateway::resolvers::{ApiBackend, Query, RequestError, TTL};

/// One simulated fetch through the shared cache: a hit serves the cached
/// body; a miss costs one upstream call and stores the response.
fn fetch_counted(
    cache: &mut ResponseCache,
    call: &UpstreamCall,
    now: u64,
    upstream_body: &[u8],
    upstream_calls: &mut u32,
) -> Vec<u8> {
    if let Some(body) = cache.probe(call, now) {
        return body;
    }
    *upstream_calls += 1;
    let body = upstream_body.to_vec();
    cache.store(call, &body, now);
    body
}

#[test]
fn user_lookup_bypasses_cache() {
    let backend = ApiBackend::new();
    let call = backend.get_user(1);
    assert_eq!(call.path, b"users/1".to_vec());
    assert_eq!(call.directive, CacheDirective::Bypass);

    let mut cache = ResponseCache::new();
    let mut upstream_calls: u32 = 0;
    let body = br#"{"id":1,"user_name":"a","email":"b"}"#;
    fetch_counted(&mut cache, &call, 100, body, &mut upstream_calls);
    fetch_counted(&mut cache, &call, 101, body, &mut upstream_calls);
    // two fetches in quick succession: two independent upstream calls
    assert_eq!(upstream_calls, 2);
}

#[test]
fn item_lookup_cached_within_ttl() {
    let backend = ApiBackend::new();
    let call = backend.get_video(Some(5)).expect("id present");
    assert_eq!(call.path, b"items/5".to_vec());
    assert_eq!(call.directive, CacheDirective::Ttl(60));

    let mut cache = ResponseCache::new();
    let mut upstream_calls: u32 = 0;
    let body = br#"{"id":5,"title":"t","url":"u"}"#;
    let first = fetch_counted(&mut cache, &call, 1000, body, &mut upstream_calls);
    assert_eq!(upstream_calls, 1);
    // within the TTL window: served from cache, still one upstream call
    let second = fetch_counted(&mut cache, &call, 1000 + 59, body, &mut upstream_calls);
    assert_eq!(upstream_calls, 1);
    assert_eq!(first, second);
    // at the end of the window: upstream again
    fetch_counted(&mut cache, &call, 1000 + TTL as u64, body, &mut upstream_calls);
    assert_eq!(upstream_calls, 2);
}

#[test]
fn items_listing_is_cacheable() {
    let backend = ApiBackend::new();
    let call = backend.get_videos();
    assert_eq!(call.path, b"items/".to_vec());
    assert_eq!(call.directive, CacheDirective::Ttl(TTL));
}

#[test]
fn item_lookup_requires_an_id() {
    let backend = ApiBackend::new();
    assert!(matches!(backend.get_video(None), Err(RequestError::MissingId)));
}

#[test]
fn query_root_delegates_to_resolvers() {
    let backend = ApiBackend::new();
    let root = Query;
    let c1 = root.user(3, &backend);
    assert_eq!(c1.path, b"users/3".to_vec());
    assert_eq!(c1.directive, CacheDirective::Bypass);
    let c2 = root.item(4, &backend).expect("id present");
    assert_eq!(c2.path, b"items/4".to_vec());
    assert_eq!(c2.directive, CacheDirective::Ttl(60));
    let c3 = root.items(&backend);
    assert_eq!(c3.path, b"items/".to_vec());
}

#[test]
fn parse_full_query() {
    let body = br#"{"query":"{ user(id: 1) { id name email } items { id title url } }"}"#.to_vec();
    let doc = parse_request(&body).expect("valid document");
    assert_eq!(doc.fields.len(), 2);
    match doc.fields[0] {
        FieldQuery::UserField { id, sel } => {
            assert_eq!(id, 1);
            assert!(sel.id && sel.name && sel.email);
        },
        _ => panic!("expected a user field"),
    }
    match doc.fields[1] {
        FieldQuery::ItemsField { sel } => {
            assert!(sel.id && sel.title && sel.url);
        },
        _ => panic!("expected a items field"),
    }
}

#[test]
fn parse_partial_selection() {
    let body = br#"{"query":"{ item(id:12){title} }"}"#.to_vec();
    let doc = parse_request(&body).expect("valid document");
    assert_eq!(doc.fields.len(), 1);
    match doc.fields[0] {
        FieldQuery::ItemField { id, sel } => {
            assert_eq!(id, 12);
            assert!(!sel.id && sel.title && !sel.url);
        },
        _ => panic!("expected a item field"),
    }
}

#[test]
fn parse_rejects_malformed_documents() {
    // not a JSON envelope at all
    assert!(matches!(
        parse_request(&b"oops".to_vec()),
        Err(RequestError::MalformedDocument)
    ));
    // an unknown top-level field
    assert!(matches!(
        parse_request(&br#"{"query":"{ products { id } }"}"#.to_vec()),
        Err(RequestError::MalformedDocument)
    ));
    // a by-id field without its id argument
    assert!(matches!(
        parse_request(&br#"{"query":"{ item { id } }"}"#.to_vec()),
        Err(RequestError::MalformedDocument)
    ));
    // an unknown sub-attribute
    assert!(matches!(
        parse_request(&br#"{"query":"{ user(id:1) { password } }"}"#.to_vec()),
        Err(RequestError::MalformedDocument)
    ));
    // a field without a selection set
    assert!(matches!(
        parse_request(&br#"{"query":"{ items }"}"#.to_vec()),
        Err(RequestError::MalformedDocument)
    ));
}

#[test]
fn parse_tolerates_duplicates_and_empty_selections() {
    // a repeated sub-attribute is idempotent
    let body = br#"{"query":"{ items { title title } }"}"#.to_vec();
    let doc = parse_request(&body).expect("valid document");
    match doc.fields[0] {
        FieldQuery::ItemsField { sel } => {
            assert!(!sel.id && sel.title && !sel.url);
        },
        _ => panic!("expected a items field"),
    }
    // an empty selection set requests no sub-attributes
    let body2 = br#"{"query":"{ user(id:1) { } }"}"#.to_vec();
    let doc2 = parse_request(&body2).expect("valid document");
    match doc2.fields[0] {
        FieldQuery::UserField { id, sel } => {
            assert_eq!(id, 1);
            assert!(!sel.id && !sel.name && !sel.email);
        },
        _ => panic!("expected a user field"),
    }
}

#[test]
fn parse_rejects_oversized_ids() {
    // the largest id parses
    let body = br#"{"query":"{ user(id:2147483647) { id } }"}"#.to_vec();
    let doc = parse_request(&body).expect("valid document");
    match doc.fields[0] {
        FieldQuery::UserField { id, .. } => assert_eq!(id, 2147483647),
        _ => panic!("expected a user field"),
    }
    // one past it does not
    assert!(matches!(
        parse_request(&br#"{"query":"{ user(id:2147483648) { id } }"}"#.to_vec()),
        Err(RequestError::MalformedDocument)
    ));
}

#[test]
fn items_only_query_projects_requested_attributes() {
    let body = br#"{"query":"{ items { title } }"}"#.to_vec();
    let backend = ApiBackend::new();
    let (doc, calls) = match start_request(&body, &backend) {
        GatewayOutcome::Planned(doc, calls) => (doc, calls),
        GatewayOutcome::Rejected(_) => panic!("valid document rejected"),
    };
    assert_eq!(calls.len(), 1);
    assert_eq!(calls[0].path, b"items/".to_vec());
    assert_eq!(calls[0].directive, CacheDirective::Ttl(60));

    let upstream = encode_item_list(&vec![
        Item { id: 3, title: b"alpha".to_vec(), url: b"http://x/3".to_vec() },
        Item { id: 4, title: b"beta".to_vec(), url: b"http://x/4".to_vec() },
    ]);
    let out = finish_request(&doc, &vec![Ok(upstream)]);
    let text = String::from_utf8(out).unwrap();
    // every item comes from the upstream list; only the requested
    // sub-attribute appears
    assert_eq!(text, r#"{"data":{"items":[{"title":"alpha"},{"title":"beta"}]}}"#);
    assert!(!text.contains("url"));
    assert!(!text.contains("http://x/3"));
}

#[test]
fn partial_failure_is_isolated_per_field() {
    let body = br#"{"query":"{ user(id: 1) { id } items { id } }"}"#.to_vec();
    let backend = ApiBackend::new();
    let (doc, calls) = match start_request(&body, &backend) {
        GatewayOutcome::Planned(doc, calls) => (doc, calls),
        GatewayOutcome::Rejected(_) => panic!("valid document rejected"),
    };
    assert_eq!(calls.len(), 2);

    let upstream = encode_item_list(&vec![Item {
        id: 4,
        title: b"t".to_vec(),
        url: b"u".to_vec(),
    }]);
    let results = vec![Err(UpstreamError::Unavailable), Ok(upstream)];
    let out = finish_request(&doc, &results);
    let text = String::from_utf8(out).unwrap();
    assert_eq!(
        text,
        r#"{"data":{"user":null,"items":[{"id":4}]},"errors":[{"message":"upstream unavailable","path":["user"]}]}"#
    );
}

#[test]
fn upstream_status_becomes_field_error() {
    let body = br#"{"query":"{ item(id:9){id} }"}"#.to_vec();
    let backend = ApiBackend::new();
    let doc = match start_request(&body, &backend) {
        GatewayOutcome::Planned(doc, _) => doc,
        GatewayOutcome::Rejected(_) => panic!("valid document rejected"),
    };
    let out = finish_request(&doc, &vec![Err(UpstreamError::Status(404))]);
    let text = String::from_utf8(out).unwrap();
    assert_eq!(
        text,
        r#"{"data":{"item":null},"errors":[{"message":"upstream status 404","path":["item"]}]}"#
    );
}

#[test]
fn undecodable_body_becomes_field_error() {
    let body = br#"{"query":"{ items { id } }"}"#.to_vec();
    let backend = ApiBackend::new();
    let doc = match start_request(&body, &backend) {
        GatewayOutcome::Planned(doc, _) => doc,
        GatewayOutcome::Rejected(_) => panic!("valid document rejected"),
    };
    let out = finish_request(&doc, &vec![Ok(b"garbage".to_vec())]);
    let text = String::from_utf8(out).unwrap();
    assert_eq!(
        text,
        r#"{"data":{"items":null},"errors":[{"message":"invalid upstream record","path":["items"]}]}"#
    );
}

#[test]
fn malformed_body_is_rejected_without_data() {
    let backend = ApiBackend::new();
    let out = match start_request(&b"{not json".to_vec(), &backend) {
        GatewayOutcome::Rejected(out) => out,
        GatewayOutcome::Planned(..) => panic!("malformed body accepted"),
    };
    let text = String::from_utf8(out).unwrap();
    // a request-level rejection: no `data` member at all, unlike a
    // field-scoped error
    assert_eq!(text, r#"{"errors":[{"message":"malformed query document"}]}"#);
    assert!(!text.contains("data"));
    assert_eq!(String::from_utf8(reject_response()).unwrap(), text);
}

#[test]
fn completed_responses_are_valid_json() {
    let body = br#"{"query":"{ user(id: 8) { name } }"}"#.to_vec();
    let backend = ApiBackend::new();
    let doc = match start_request(&body, &backend) {
        GatewayOutcome::Planned(doc, _) => doc,
        GatewayOutcome::Rejected(_) => panic!("valid document rejected"),
    };
    let upstream = br#"{"id":8,"user_name":"erin","email":"e@f.g"}"#.to_vec();
    let out = finish_request(&doc, &vec![Ok(upstream)]);
    let val: serde_json::Value = serde_json::from_slice(&out).expect("valid JSON");
    // the `name` member is sourced from the upstream `user_name` attribute
    assert_eq!(
        val.get("data").unwrap().get("user").unwrap().get("name").unwrap().as_str().unwrap(),
        "erin"
    );
    assert!(val.get("errors").is_none());
}

#[test]
fn parse_tolerates_envelope_whitespace_variables_and_escapes() {
    // whitespace, member order, a `variables` member and an unknown
    // member are all tolerated; the query string's escapes are decoded,
    // so a multi-line query (newlines sent as \n) parses
    let body =
        br#"{ "operationName": null, "variables": {"x": [1, 2]}, "query": "{\n  user(id: 7) {\n    name\n  }\n}" }"#
        .to_vec();
    let doc = parse_request(&body).expect("standard envelope must parse");
    assert_eq!(doc.fields.len(), 1);
    match doc.fields[0] {
        FieldQuery::UserField { id, sel } => {
            assert_eq!(id, 7);
            assert!(!sel.id && sel.name && !sel.email);
        },
        _ => panic!("expected a user field"),
    }
}
