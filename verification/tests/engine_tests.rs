use apibot::command::{
    execute, ListOptions, ResourceType, RetryOptions, SendOptions, Step, SubCommand,
};
use apibot::db::{retrive_requests, retrive_resource_by_id, retrive_responses, Store};
use apibot::http::{execute_request, retry, Version};
use apibot::model::{RequestRecord, TransportResponse};
use apibot::ApibotError;

fn bytes(s: &str) -> Vec<u8> {
    s.as_bytes().to_vec()
}

fn send_options(url: &str, method: &str, data: Option<&str>) -> SendOptions {
    SendOptions {
        url: String::from(url),
        method: String::from(method),
        headers: Vec::new(),
        http: Version::Http11,
        data: data.map(bytes),
    }
}

fn stub_response(status: u16, body: &str) -> TransportResponse {
    TransportResponse { status_code: status, headers: Vec::new(), body: bytes(body) }
}

fn dispatch(store: &mut Store, cmd: SubCommand) -> (i64, apibot::model::Request) {
    match execute(store, cmd).unwrap() {
        Step::Dispatched(d) => (d.request_id, d.request),
        _ => panic!("expected a dispatch"),
    }
}

#[test]
fn send_scenario_get_ping() {
    // Send GET http://example.test/ping, version 1.1, no headers, no body,
    // against a stubbed transport answering 200 {"ok":true}.
    let mut store = Store::new();
    let (id, request) = dispatch(
        &mut store,
        SubCommand::Send { options: send_options("http://example.test/ping", "GET", None) },
    );
    assert_eq!(request.method, "GET");
    assert_eq!(request.url, "http://example.test/ping");
    let body = execute_request(&mut store, id, Some(stub_response(200, "{\"ok\":true}"))).unwrap();
    assert_eq!(body, bytes("{\"ok\":true}"));

    let reqs = retrive_requests(&store, 10);
    assert_eq!(reqs.len(), 1);
    assert_eq!(reqs[0].id, id);
    assert_eq!(reqs[0].method, "GET");
    assert_eq!(reqs[0].version, "1.1");
    assert_eq!(reqs[0].url, "http://example.test/ping");
    assert_eq!(reqs[0].header, bytes("{}"));
    assert_eq!(reqs[0].body, bytes(""));
    assert_eq!(reqs[0].namespace, "default");
    assert!(reqs[0].deleted_at.is_none());

    let resps = retrive_responses(&store, 10);
    assert_eq!(resps.len(), 1);
    assert_eq!(resps[0].request_id, id);
    assert_eq!(resps[0].status_code, 200);
    assert_eq!(resps[0].body, bytes("{\"ok\":true}"));
    assert_eq!(resps[0].namespace, "default");
}

#[test]
fn persist_before_send_failed_transport_keeps_request_row() {
    let mut store = Store::new();
    let (id, _) = dispatch(
        &mut store,
        SubCommand::Send { options: send_options("http://unreachable.test", "POST", Some("x")) },
    );
    let r = execute_request(&mut store, id, None);
    assert_eq!(r, Err(ApibotError::TransportFailure));
    assert_eq!(retrive_requests(&store, 10).len(), 1);
    assert_eq!(retrive_responses(&store, 10).len(), 0);
}

#[test]
fn retry_reuses_request_id() {
    let mut store = Store::new();
    let (id, _) = dispatch(
        &mut store,
        SubCommand::Send { options: send_options("http://h.test/a", "PUT", Some("payload")) },
    );
    execute_request(&mut store, id, Some(stub_response(200, "one"))).unwrap();

    for body in ["two", "three"] {
        let (rid, request) =
            dispatch(&mut store, SubCommand::Retry { options: RetryOptions { request_id: id } });
        assert_eq!(rid, id);
        assert_eq!(request.method, "PUT");
        assert_eq!(request.url, "http://h.test/a");
        assert_eq!(request.body, bytes("payload"));
        execute_request(&mut store, rid, Some(stub_response(201, body))).unwrap();
    }

    assert_eq!(retrive_requests(&store, 10).len(), 1);
    let resps = retrive_responses(&store, 10);
    assert_eq!(resps.len(), 3);
    for r in &resps {
        assert_eq!(r.request_id, id);
    }
    // Newest response first, strictly descending ids; limits apply here too.
    assert!(resps[0].id > resps[1].id && resps[1].id > resps[2].id);
    assert_eq!(resps[0].body, bytes("three"));
    assert_eq!(resps[2].body, bytes("one"));
    assert_eq!(retrive_responses(&store, 2).len(), 2);
}

#[test]
fn soft_deleted_responses_are_excluded_from_listing() {
    let mut store = Store::new();
    let (id, _) = dispatch(
        &mut store,
        SubCommand::Send { options: send_options("http://h.test", "GET", None) },
    );
    execute_request(&mut store, id, Some(stub_response(200, "a"))).unwrap();
    execute_request(&mut store, id, Some(stub_response(200, "b"))).unwrap();
    for rec in &mut store.responses {
        if rec.body == bytes("a") {
            rec.deleted_at = Some(String::from("2024-01-01 00:00:00.000Z"));
        }
    }
    let resps = retrive_responses(&store, 10);
    assert_eq!(resps.len(), 1);
    assert_eq!(resps[0].body, bytes("b"));
}

#[test]
fn retry_round_trips_request_exactly() {
    let mut store = Store::new();
    let options = SendOptions {
        url: String::from("h.test/path"),
        method: String::from("PATCH"),
        headers: vec![(bytes("x-a"), bytes("1")), (bytes("x-b"), bytes("2"))],
        http: Version::Http2,
        data: Some(bytes("{\"n\": 1}")),
    };
    let (id, sent) = dispatch(&mut store, SubCommand::Send { options });
    assert_eq!(sent.url, "http://h.test/path");
    execute_request(&mut store, id, Some(stub_response(200, "ok"))).unwrap();

    let again = retry(&store, RetryOptions { request_id: id }).unwrap();
    assert_eq!(again.request_id, id);
    assert_eq!(again.request.method, sent.method);
    assert_eq!(again.request.url, sent.url);
    assert_eq!(again.request.version, sent.version);
    assert_eq!(again.request.headers, sent.headers);
    assert_eq!(again.request.body, sent.body);
}

#[test]
fn retry_unknown_id_is_not_found() {
    let store = Store::new();
    let r = retry(&store, RetryOptions { request_id: 7 });
    assert!(matches!(r, Err(ApibotError::RequestNotFound)));
}

#[test]
fn response_for_unknown_request_id_is_refused() {
    let mut store = Store::new();
    let r = execute_request(&mut store, 5, Some(stub_response(200, "x")));
    assert!(matches!(r, Err(ApibotError::RequestNotFound)));
    assert_eq!(retrive_responses(&store, 10).len(), 0);
}

fn send_n(store: &mut Store, n: usize) -> Vec<i64> {
    let mut ids = Vec::new();
    for i in 0..n {
        let url = format!("http://h.test/{}", i);
        let (id, _) = dispatch(store, SubCommand::Send { options: send_options(&url, "GET", None) });
        ids.push(id);
    }
    ids
}

#[test]
fn list_limit_and_ordering() {
    let mut store = Store::new();
    let ids = send_n(&mut store, 5);
    let listed = retrive_requests(&store, 3);
    assert_eq!(listed.len(), 3);
    // Newest first, strictly descending ids.
    assert_eq!(listed[0].id, ids[4]);
    assert_eq!(listed[1].id, ids[3]);
    assert_eq!(listed[2].id, ids[2]);

    // A newer row displaces the oldest of the previous three.
    let (new_id, _) = dispatch(
        &mut store,
        SubCommand::Send { options: send_options("http://h.test/new", "GET", None) },
    );
    let after = retrive_requests(&store, 3);
    assert_eq!(after.len(), 3);
    assert_eq!(after[0].id, new_id);
    assert_eq!(after[1].id, ids[4]);
    assert_eq!(after[2].id, ids[3]);

    // Limit zero returns nothing; a large limit returns everything.
    assert_eq!(retrive_requests(&store, 0).len(), 0);
    assert_eq!(retrive_requests(&store, 100).len(), 6);
}

#[test]
fn soft_deleted_rows_are_excluded_from_listing_but_retrievable() {
    let mut store = Store::new();
    let ids = send_n(&mut store, 3);
    // Soft-delete the middle row, as an edit feature would.
    for rec in &mut store.requests {
        if rec.id == ids[1] {
            rec.deleted_at = Some(String::from("2024-01-01 00:00:00.000Z"));
        }
    }
    let listed = retrive_requests(&store, 10);
    assert_eq!(listed.len(), 2);
    assert_eq!(listed[0].id, ids[2]);
    assert_eq!(listed[1].id, ids[0]);

    // Get-by-id still reaches the soft-deleted row, so retry still works.
    let found = retrive_resource_by_id(&store, ids[1]).unwrap();
    assert_eq!(found.id, ids[1]);
    assert!(found.deleted_at.is_some());
    let d = retry(&store, RetryOptions { request_id: ids[1] }).unwrap();
    assert_eq!(d.request_id, ids[1]);
}

#[test]
fn execute_lists_and_describes() {
    let mut store = Store::new();
    send_n(&mut store, 2);
    match execute(
        &mut store,
        SubCommand::List {
            options: ListOptions { resource_type: ResourceType::Request, limit: 10 },
        },
    )
    .unwrap()
    {
        Step::Requests(v) => assert_eq!(v.len(), 2),
        _ => panic!("expected a request listing"),
    }
    match execute(
        &mut store,
        SubCommand::List {
            options: ListOptions { resource_type: ResourceType::Response, limit: 10 },
        },
    )
    .unwrap()
    {
        Step::Responses(v) => assert_eq!(v.len(), 0),
        _ => panic!("expected a response listing"),
    }
    match execute(
        &mut store,
        SubCommand::Describe {
            options: apibot::command::DescribeOptions {
                resource_type: ResourceType::Request,
                request_id: 1,
            },
        },
    )
    .unwrap()
    {
        Step::Description { resource_type, request_id } => {
            assert_eq!(resource_type, ResourceType::Request);
            assert_eq!(request_id, 1);
        },
        _ => panic!("expected a description"),
    }
}

#[test]
fn decode_failures_surface_storage_corruption() {
    let mut store = Store::new();
    let (id, _) = dispatch(
        &mut store,
        SubCommand::Send { options: send_options("http://h.test", "GET", None) },
    );
    // Corrupt the stored rows by hand, as nothing in normal operation does.
    store.requests[0].header = bytes("not json");
    let r = retry(&store, RetryOptions { request_id: id });
    assert!(matches!(r, Err(ApibotError::MalformedHeaderRecord)));

    store.requests[0].header = bytes("{}");
    store.requests[0].version = String::from("9.9");
    let r = retry(&store, RetryOptions { request_id: id });
    assert!(matches!(r, Err(ApibotError::UnknownProtocolVersion)));

    store.requests[0].version = String::from("1.1");
    store.requests[0].method = String::from("BAD METHOD");
    let r = retry(&store, RetryOptions { request_id: id });
    assert!(matches!(r, Err(ApibotError::InvalidMethod)));
}

#[test]
fn loaders_rebuild_a_store_in_id_order() {
    let mut store = Store::new();
    let row = |id: i64, deleted: bool| RequestRecord {
        id,
        created_at: String::from("2024-01-01 00:00:00.000Z"),
        updated_at: None,
        deleted_at: if deleted { Some(String::from("2024-01-02 00:00:00.000Z")) } else { None },
        namespace: String::from("default"),
        method: String::from("GET"),
        version: String::from("1.1"),
        url: String::from("http://h.test"),
        header: bytes("{}"),
        body: bytes(""),
    };
    assert!(apibot::db::load_request(&mut store, row(1, false)));
    assert!(apibot::db::load_request(&mut store, row(4, true)));
    // Out of order or duplicate ids are refused.
    assert!(!apibot::db::load_request(&mut store, row(4, false)));
    assert!(!apibot::db::load_request(&mut store, row(2, false)));
    assert_eq!(retrive_requests(&store, 10).len(), 1);
    assert!(retrive_resource_by_id(&store, 4).is_some());
}
