use users_api::codec::{parse_user, serialize_user, serialize_users};
use users_api::request::{extract_body, get_id, get_user_request_body};
use users_api::user::User;

fn user(id: Option<i32>, name: &[u8], email: &[u8]) -> User {
    User { id, name: name.to_vec(), email: email.to_vec() }
}

#[test]
fn serialize_without_id() {
    let u = user(None, b"Ann", b"a@x.com");
    assert_eq!(serialize_user(&u), b"{\"name\":\"Ann\",\"email\":\"a@x.com\"}".to_vec());
}

#[test]
fn serialize_with_id() {
    let u = user(Some(1), b"Ann", b"a@x.com");
    assert_eq!(serialize_user(&u), b"{\"id\":1,\"name\":\"Ann\",\"email\":\"a@x.com\"}".to_vec());
}

#[test]
fn serialize_negative_id() {
    let u = user(Some(-12), b"n", b"e");
    assert_eq!(serialize_user(&u), b"{\"id\":-12,\"name\":\"n\",\"email\":\"e\"}".to_vec());
}

#[test]
fn serialize_escapes_quotes_and_backslashes() {
    let u = user(None, b"a\"b", b"c\\d");
    assert_eq!(serialize_user(&u), b"{\"name\":\"a\\\"b\",\"email\":\"c\\\\d\"}".to_vec());
}

#[test]
fn serialize_empty_array() {
    let us: Vec<User> = Vec::new();
    assert_eq!(serialize_users(&us), b"[]".to_vec());
}

#[test]
fn serialize_array_of_two() {
    let us = vec![user(Some(1), b"A", b"a"), user(Some(2), b"B", b"b")];
    assert_eq!(
        serialize_users(&us),
        b"[{\"id\":1,\"name\":\"A\",\"email\":\"a\"},{\"id\":2,\"name\":\"B\",\"email\":\"b\"}]"
            .to_vec()
    );
}

#[test]
fn parse_simple_body() {
    let u = parse_user(b"{\"name\":\"Ann\",\"email\":\"a@x.com\"}").unwrap();
    assert_eq!(u.id, None);
    assert_eq!(u.name, b"Ann".to_vec());
    assert_eq!(u.email, b"a@x.com".to_vec());
}

#[test]
fn parse_with_id_and_whitespace_and_reordered_fields() {
    let u = parse_user(b" { \"email\" : \"e\" , \"id\" : 7 , \"name\" : \"n\" } ").unwrap();
    assert_eq!(u.id, Some(7));
    assert_eq!(u.name, b"n".to_vec());
    assert_eq!(u.email, b"e".to_vec());
}

#[test]
fn parse_unescapes() {
    let u = parse_user(b"{\"name\":\"a\\\"b\",\"email\":\"c\\\\d\"}").unwrap();
    assert_eq!(u.name, b"a\"b".to_vec());
    assert_eq!(u.email, b"c\\d".to_vec());
}

#[test]
fn parse_rejects_missing_field() {
    assert!(parse_user(b"{\"name\":\"Ann\"}").is_none());
    assert!(parse_user(b"{}").is_none());
}

#[test]
fn parse_skips_unknown_members() {
    let u = parse_user(b"{\"name\":\"a\",\"email\":\"b\",\"extra\":\"c\"}").unwrap();
    assert_eq!(u.name, b"a".to_vec());
    assert_eq!(u.email, b"b".to_vec());
    let u = parse_user(
        b"{\"x\":{\"a\":[1,2,{\"b\":null}],\"c\":-1.5e3},\"name\":\"n\",\"email\":\"e\",\"y\":[],\"z\":true}",
    )
    .unwrap();
    assert_eq!(u.name, b"n".to_vec());
    assert_eq!(u.email, b"e".to_vec());
    assert!(parse_user(b"{\"name\":\"a\",\"email\":\"b\",\"extra\":}").is_none());
    assert!(parse_user(b"{\"name\":\"a\",\"email\":\"b\",\"extra\":[1,}").is_none());
}

#[test]
fn parse_rejects_duplicate_field() {
    assert!(parse_user(b"{\"name\":\"a\",\"name\":\"b\",\"email\":\"c\"}").is_none());
}

#[test]
fn parse_rejects_unquoted_and_garbage() {
    assert!(parse_user(b"{name:\"a\",email:\"b\"}").is_none());
    assert!(parse_user(b"not json").is_none());
    assert!(parse_user(b"").is_none());
    assert!(parse_user(b"{\"name\":\"a\",\"email\":\"b\"} x").is_none());
    assert!(parse_user(b"{\"name\":\"a\",\"email\":\"b\",}").is_none());
}

#[test]
fn parse_id_bounds() {
    let u = parse_user(b"{\"id\":-2147483648,\"name\":\"n\",\"email\":\"e\"}").unwrap();
    assert_eq!(u.id, Some(-2147483648));
    let u = parse_user(b"{\"id\":2147483647,\"name\":\"n\",\"email\":\"e\"}").unwrap();
    assert_eq!(u.id, Some(2147483647));
    assert!(parse_user(b"{\"id\":2147483648,\"name\":\"n\",\"email\":\"e\"}").is_none());
    assert!(parse_user(b"{\"id\":99999999999999999999,\"name\":\"n\",\"email\":\"e\"}").is_none());
    assert!(parse_user(b"{\"id\":\"7\",\"name\":\"n\",\"email\":\"e\"}").is_none());
}

#[test]
fn round_trip_concrete() {
    let body = b"{\"name\":\"A \\\"quoted\\\" name\",\"email\":\"x\\\\y@z\"}";
    let u = parse_user(body).unwrap();
    let again = parse_user(&serialize_user(&u)).unwrap();
    assert_eq!(u.id, again.id);
    assert_eq!(u.name, again.name);
    assert_eq!(u.email, again.email);
}

#[test]
fn round_trip_with_id() {
    let u = user(Some(42), b"Ann", b"a@x.com");
    let again = parse_user(&serialize_user(&u)).unwrap();
    assert_eq!(again.id, Some(42));
    assert_eq!(again.name, b"Ann".to_vec());
    assert_eq!(again.email, b"a@x.com".to_vec());
}


#[test]
fn parse_standard_escapes() {
    let u = parse_user(b"{\"name\":\"a\\/b\\n\\t\\r\\b\\f\",\"email\":\"e\"}").unwrap();
    assert_eq!(u.name, b"a/b\n\t\r\x08\x0c".to_vec());
}

#[test]
fn parse_unicode_escapes() {
    let u = parse_user(b"{\"name\":\"\\u0041\\u00e9\\u20ac\",\"email\":\"\\ud834\\udd1e\"}").unwrap();
    assert_eq!(u.name, "A\u{e9}\u{20ac}".as_bytes().to_vec());
    assert_eq!(u.email, "\u{1d11e}".as_bytes().to_vec());
    assert!(parse_user(b"{\"name\":\"\\ud834\",\"email\":\"e\"}").is_none());
    assert!(parse_user(b"{\"name\":\"\\udd1e\",\"email\":\"e\"}").is_none());
    assert!(parse_user(b"{\"name\":\"\\u12g4\",\"email\":\"e\"}").is_none());
}

#[test]
fn parse_rejects_raw_control_bytes() {
    assert!(parse_user(b"{\"name\":\"a\x01b\",\"email\":\"e\"}").is_none());
    assert!(parse_user(b"{\"name\":\"a\nb\",\"email\":\"e\"}").is_none());
}

#[test]
fn parse_null_id_reads_as_absent() {
    let u = parse_user(b"{\"id\":null,\"name\":\"n\",\"email\":\"e\"}").unwrap();
    assert_eq!(u.id, None);
    assert!(parse_user(b"{\"id\":null,\"id\":1,\"name\":\"n\",\"email\":\"e\"}").is_none());
}

#[test]
fn parse_id_number_grammar() {
    assert!(parse_user(b"{\"id\":01,\"name\":\"n\",\"email\":\"e\"}").is_none());
    assert!(parse_user(b"{\"id\":+1,\"name\":\"n\",\"email\":\"e\"}").is_none());
    assert!(parse_user(b"{\"id\":1.5,\"name\":\"n\",\"email\":\"e\"}").is_none());
    let u = parse_user(b"{\"id\":-0,\"name\":\"n\",\"email\":\"e\"}").unwrap();
    assert_eq!(u.id, Some(0));
}

#[test]
fn serialize_escapes_control_bytes() {
    let u = user(None, b"a\x01\x1f", b"e");
    assert_eq!(
        serialize_user(&u),
        b"{\"name\":\"a\\u0001\\u001f\",\"email\":\"e\"}".to_vec()
    );
    let again = parse_user(&serialize_user(&u)).unwrap();
    assert_eq!(again.name, b"a\x01\x1f".to_vec());
}

#[test]
fn body_after_first_separator() {
    assert_eq!(extract_body(b"POST / HTTP/1.1\r\n\r\nhello"), b"hello".to_vec());
    assert_eq!(extract_body(b"a\r\n\r\nb\r\n\r\nc"), b"b\r\n\r\nc".to_vec());
    assert_eq!(extract_body(b"no separator here"), Vec::<u8>::new());
}

#[test]
fn body_deserializes() {
    let req = b"POST /api/rust/users HTTP/1.1\r\nHost: h\r\n\r\n{\"name\":\"N\",\"email\":\"E\"}";
    let u = get_user_request_body(req).unwrap();
    assert_eq!(u.name, b"N".to_vec());
    assert_eq!(u.email, b"E".to_vec());
    assert!(get_user_request_body(b"POST /x HTTP/1.1\r\n\r\nbad").is_none());
}

#[test]
fn id_segment() {
    assert_eq!(get_id(b"GET /api/rust/users/42 HTTP/1.1\r\n\r\n"), b"42".to_vec());
    assert_eq!(get_id(b"DELETE /api/rust/users/7 HTTP/1.1"), b"7".to_vec());
    assert_eq!(get_id(b"GET /api/rust/users HTTP/1.1"), Vec::<u8>::new());
    assert_eq!(get_id(b"GET /api/rust/users/abc HTTP/1.1"), b"abc".to_vec());
    assert_eq!(get_id(b"OPTIONS * HTTP/1.1"), Vec::<u8>::new());
    assert_eq!(get_id(b"GET /api/rust/users/4\t2 HTTP/1.1"), b"4".to_vec());
    assert_eq!(get_id(b"GET /api/rust/users/9\x0b HTTP/1.1"), b"9".to_vec());
    assert_eq!(get_id(b"GET /api/rust/users/8\x0c HTTP/1.1"), b"8".to_vec());
}
