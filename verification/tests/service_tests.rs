use users_api::router::{
    render_response, respond, route_request, Response, StatusLine, StoreAction, StoreOutcome,
};
use users_api::store::MemStore;
use users_api::user::User;

const OK_PREFIX: &[u8] = b"HTTP/1.1 200 OK\r\nContent-Type: application/json\r\n\r\n";
const NOT_FOUND_PREFIX: &[u8] = b"HTTP/1.1 404 NOT FOUND\r\n\r\n";
const INTERNAL_PREFIX: &[u8] = b"HTTP/1.1 500 INTERNAL ERROR\r\n\r\n";

/// Runs one request against the store, as the connection loop does.
fn do_request(store: &mut MemStore, req: &[u8]) -> Response {
    let action = route_request(req);
    match &action {
        StoreAction::Reply(_) => {
            let outcome = StoreOutcome::Affected(0);
            respond(&action, &outcome)
        }
        _ => {
            let outcome = store.apply(&action);
            respond(&action, &outcome)
        }
    }
}

#[test]
fn routes_options_to_empty_success() {
    let a = route_request(b"OPTIONS * HTTP/1.1\r\n\r\n");
    match a {
        StoreAction::Reply(r) => {
            assert_eq!(r.status, StatusLine::Success);
            assert!(r.body.is_empty());
        }
        _ => panic!("expected an immediate reply"),
    }
}

#[test]
fn routes_post_to_insert() {
    let a = route_request(b"POST /api/rust/users HTTP/1.1\r\n\r\n{\"name\":\"N\",\"email\":\"E\"}");
    match a {
        StoreAction::Insert { name, email } => {
            assert_eq!(name, b"N".to_vec());
            assert_eq!(email, b"E".to_vec());
        }
        _ => panic!("expected an insert"),
    }
}

#[test]
fn routes_bad_post_body_to_internal_error() {
    let a = route_request(b"POST /api/rust/users HTTP/1.1\r\n\r\nnot json");
    match a {
        StoreAction::Reply(r) => {
            assert_eq!(r.status, StatusLine::Internal);
            assert_eq!(r.body, b"Error".to_vec());
        }
        _ => panic!("expected an immediate reply"),
    }
}

#[test]
fn routes_get_with_id_to_fetch_one() {
    let a = route_request(b"GET /api/rust/users/9 HTTP/1.1\r\n\r\n");
    assert!(matches!(a, StoreAction::SelectOne { id: 9 }));
}

#[test]
fn routes_get_without_id_to_fetch_all() {
    let a = route_request(b"GET /api/rust/users HTTP/1.1\r\n\r\n");
    assert!(matches!(a, StoreAction::SelectAll));
}

#[test]
fn routes_get_with_non_integer_id_to_internal_error() {
    let a = route_request(b"GET /api/rust/users/abc HTTP/1.1\r\n\r\n");
    match a {
        StoreAction::Reply(r) => assert_eq!(r.status, StatusLine::Internal),
        _ => panic!("expected an immediate reply"),
    }
}

#[test]
fn routes_plus_and_padded_ids() {
    let a = route_request(b"GET /api/rust/users/+7 HTTP/1.1\r\n\r\n");
    assert!(matches!(a, StoreAction::SelectOne { id: 7 }));
    let a = route_request(b"GET /api/rust/users/007 HTTP/1.1\r\n\r\n");
    assert!(matches!(a, StoreAction::SelectOne { id: 7 }));
    let a = route_request(b"DELETE /api/rust/users/-3 HTTP/1.1\r\n\r\n");
    assert!(matches!(a, StoreAction::Delete { id: -3 }));
}

#[test]
fn routes_put_to_update() {
    let a = route_request(b"PUT /api/rust/users/3 HTTP/1.1\r\n\r\n{\"name\":\"N\",\"email\":\"E\"}");
    match a {
        StoreAction::Update { id, name, email } => {
            assert_eq!(id, 3);
            assert_eq!(name, b"N".to_vec());
            assert_eq!(email, b"E".to_vec());
        }
        _ => panic!("expected an update"),
    }
}

#[test]
fn routes_delete_to_delete() {
    let a = route_request(b"DELETE /api/rust/users/5 HTTP/1.1\r\n\r\n");
    assert!(matches!(a, StoreAction::Delete { id: 5 }));
}

#[test]
fn routes_anything_else_to_not_found() {
    let a = route_request(b"GET /other/path HTTP/1.1\r\n\r\n");
    match a {
        StoreAction::Reply(r) => {
            assert_eq!(r.status, StatusLine::NotFound);
            assert_eq!(r.body, b"404 not found".to_vec());
        }
        _ => panic!("expected an immediate reply"),
    }
}

#[test]
fn respond_insert_failure_is_internal_error() {
    let a = StoreAction::Insert { name: b"n".to_vec(), email: b"e".to_vec() };
    let r = respond(&a, &StoreOutcome::Failure);
    assert_eq!(r.status, StatusLine::Internal);
    assert_eq!(r.body, b"Error".to_vec());
}

#[test]
fn respond_update_of_no_rows_is_not_found() {
    let a = StoreAction::Update { id: 1, name: b"n".to_vec(), email: b"e".to_vec() };
    let r = respond(&a, &StoreOutcome::Affected(0));
    assert_eq!(r.status, StatusLine::NotFound);
    let r = respond(&a, &StoreOutcome::Affected(1));
    assert_eq!(r.status, StatusLine::Success);
    assert_eq!(r.body, b"User updated".to_vec());
}

#[test]
fn render_concatenates_status_line_and_body() {
    let r = Response { status: StatusLine::NotFound, body: b"404 not found".to_vec() };
    let mut expected = NOT_FOUND_PREFIX.to_vec();
    expected.extend_from_slice(b"404 not found");
    assert_eq!(render_response(&r), expected);
}

#[test]
fn create_then_fetch_one() {
    let mut store = MemStore::new();
    let r = do_request(
        &mut store,
        b"POST /api/rust/users HTTP/1.1\r\n\r\n{\"name\":\"Ann\",\"email\":\"a@x.com\"}",
    );
    assert_eq!(r.status, StatusLine::Success);
    assert_eq!(r.body, b"User created".to_vec());
    let mut expected = OK_PREFIX.to_vec();
    expected.extend_from_slice(b"User created");
    assert_eq!(render_response(&r), expected);

    let r = do_request(&mut store, b"GET /api/rust/users/1 HTTP/1.1\r\n\r\n");
    assert_eq!(r.status, StatusLine::Success);
    assert_eq!(r.body, b"{\"id\":1,\"name\":\"Ann\",\"email\":\"a@x.com\"}".to_vec());
}

#[test]
fn fetch_one_on_empty_table_is_not_found() {
    let mut store = MemStore::new();
    let r = do_request(&mut store, b"GET /api/rust/users/999 HTTP/1.1\r\n\r\n");
    assert_eq!(r.status, StatusLine::NotFound);
    let mut expected = NOT_FOUND_PREFIX.to_vec();
    expected.extend_from_slice(b"404 not found");
    assert_eq!(render_response(&r), expected);
}

#[test]
fn malformed_create_inserts_no_row() {
    let mut store = MemStore::new();
    let r = do_request(&mut store, b"POST /api/rust/users HTTP/1.1\r\n\r\n{\"name\":");
    assert_eq!(r.status, StatusLine::Internal);
    assert!(render_response(&r).starts_with(INTERNAL_PREFIX));
    let r = do_request(&mut store, b"GET /api/rust/users HTTP/1.1\r\n\r\n");
    assert_eq!(r.status, StatusLine::Success);
    assert_eq!(r.body, b"[]".to_vec());
}

#[test]
fn fetch_all_returns_one_row_per_create() {
    let mut store = MemStore::new();
    for (n, e) in [(b"A", b"a"), (b"B", b"b"), (b"C", b"c")] {
        let mut req = b"POST /api/rust/users HTTP/1.1\r\n\r\n{\"name\":\"".to_vec();
        req.extend_from_slice(n);
        req.extend_from_slice(b"\",\"email\":\"");
        req.extend_from_slice(e);
        req.extend_from_slice(b"\"}");
        let r = do_request(&mut store, &req);
        assert_eq!(r.status, StatusLine::Success);
    }
    let r = do_request(&mut store, b"GET /api/rust/users HTTP/1.1\r\n\r\n");
    assert_eq!(r.status, StatusLine::Success);
    let expected = users_api::codec::serialize_users(&vec![
        User { id: Some(1), name: b"A".to_vec(), email: b"a".to_vec() },
        User { id: Some(2), name: b"B".to_vec(), email: b"b".to_vec() },
        User { id: Some(3), name: b"C".to_vec(), email: b"c".to_vec() },
    ]);
    assert_eq!(r.body, expected);
}

#[test]
fn update_changes_fetch_one_and_missing_update_mutates_nothing() {
    let mut store = MemStore::new();
    do_request(
        &mut store,
        b"POST /api/rust/users HTTP/1.1\r\n\r\n{\"name\":\"Old\",\"email\":\"o@x\"}",
    );
    let r = do_request(
        &mut store,
        b"PUT /api/rust/users/1 HTTP/1.1\r\n\r\n{\"name\":\"New\",\"email\":\"n@x\"}",
    );
    assert_eq!(r.status, StatusLine::Success);
    assert_eq!(r.body, b"User updated".to_vec());
    let r = do_request(&mut store, b"GET /api/rust/users/1 HTTP/1.1\r\n\r\n");
    assert_eq!(r.body, b"{\"id\":1,\"name\":\"New\",\"email\":\"n@x\"}".to_vec());

    let before = do_request(&mut store, b"GET /api/rust/users HTTP/1.1\r\n\r\n").body;
    let r = do_request(
        &mut store,
        b"PUT /api/rust/users/99 HTTP/1.1\r\n\r\n{\"name\":\"X\",\"email\":\"y\"}",
    );
    assert_eq!(r.status, StatusLine::NotFound);
    let after = do_request(&mut store, b"GET /api/rust/users HTTP/1.1\r\n\r\n").body;
    assert_eq!(before, after);
}

#[test]
fn delete_removes_row_and_missing_delete_is_not_found() {
    let mut store = MemStore::new();
    do_request(&mut store, b"POST /api/rust/users HTTP/1.1\r\n\r\n{\"name\":\"A\",\"email\":\"a\"}");
    do_request(&mut store, b"POST /api/rust/users HTTP/1.1\r\n\r\n{\"name\":\"B\",\"email\":\"b\"}");
    let r = do_request(&mut store, b"DELETE /api/rust/users/1 HTTP/1.1\r\n\r\n");
    assert_eq!(r.status, StatusLine::Success);
    assert_eq!(r.body, b"User deleted".to_vec());
    let r = do_request(&mut store, b"GET /api/rust/users HTTP/1.1\r\n\r\n");
    assert_eq!(r.body, b"[{\"id\":2,\"name\":\"B\",\"email\":\"b\"}]".to_vec());
    let r = do_request(&mut store, b"DELETE /api/rust/users/1 HTTP/1.1\r\n\r\n");
    assert_eq!(r.status, StatusLine::NotFound);
}
