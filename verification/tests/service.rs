use user_service::Method;
use user_service::create_user;
use user_service::create_user_body;
use user_service::handle_request;
use user_service::parse_create_user;
use user_service::root;
use user_service::u64_to_string;
use user_service::user_to_json;

#[test]
fn should_return_hello_world() {
    let r = handle_request(Method::Get, "/", "");
    assert_eq!(r.status, 200);
    assert_eq!(r.body, "Hello, World!");
}

#[test]
fn should_return_user_data() {
    let name = "\u{7530}\u{4e2d} \u{592a}\u{90ce}";
    let body = format!("{{\"username\":\"{}\"}}", name);
    let r = handle_request(Method::Post, "/users", &body);
    assert_eq!(r.status, 201);
    assert_eq!(r.body, format!("{{\"id\":1337,\"username\":\"{}\"}}", name));
}

#[test]
fn root_is_the_greeting() {
    assert_eq!(root(), "Hello, World!");
}

#[test]
fn get_root_ignores_the_body() {
    let r = handle_request(Method::Get, "/", "{\"username\":\"alice\"}");
    assert_eq!(r.status, 200);
    assert_eq!(r.body, "Hello, World!");
}

#[test]
fn post_users_alice() {
    let r = handle_request(Method::Post, "/users", "{\"username\":\"alice\"}");
    assert_eq!(r.status, 201);
    assert_eq!(r.body, "{\"id\":1337,\"username\":\"alice\"}");
}

#[test]
fn post_users_empty_username() {
    let r = handle_request(Method::Post, "/users", "{\"username\":\"\"}");
    assert_eq!(r.status, 201);
    assert_eq!(r.body, "{\"id\":1337,\"username\":\"\"}");
}

#[test]
fn post_users_empty_object_is_rejected() {
    let r = handle_request(Method::Post, "/users", "{}");
    assert!(400 <= r.status && r.status < 500);
    assert_eq!(r.status, 400);
}

#[test]
fn post_users_non_json_is_rejected() {
    let r = handle_request(Method::Post, "/users", "just some text");
    assert_eq!(r.status, 400);
}

#[test]
fn post_users_empty_body_is_rejected() {
    let r = handle_request(Method::Post, "/users", "");
    assert_eq!(r.status, 400);
}

#[test]
fn post_users_non_string_value_is_rejected() {
    let r = handle_request(Method::Post, "/users", "{\"username\":42}");
    assert_eq!(r.status, 400);
}

#[test]
fn post_users_wrong_member_is_rejected() {
    let r = handle_request(Method::Post, "/users", "{\"user\":\"alice\"}");
    assert_eq!(r.status, 400);
}

#[test]
fn post_users_ignores_extra_members() {
    let r = handle_request(Method::Post, "/users", "{\"x\":1,\"username\":\"alice\"}");
    assert_eq!(r.status, 201);
    assert_eq!(r.body, "{\"id\":1337,\"username\":\"alice\"}");
    let r = handle_request(
        Method::Post,
        "/users",
        "{\"username\":\"bob\",\"list\":[1,{\"y\":null},true],\"n\":-1.5e+3,\"note\":\"hi\"}",
    );
    assert_eq!(r.status, 201);
    assert_eq!(r.body, "{\"id\":1337,\"username\":\"bob\"}");
}

#[test]
fn post_users_nested_username_is_not_the_member() {
    let r = handle_request(
        Method::Post,
        "/users",
        "{\"a\":{\"username\":\"zz\"},\"username\":\"bob\"}",
    );
    assert_eq!(r.status, 201);
    assert_eq!(r.body, "{\"id\":1337,\"username\":\"bob\"}");
    let r = handle_request(Method::Post, "/users", "{\"a\":{\"username\":\"zz\"}}");
    assert_eq!(r.status, 400);
}

#[test]
fn post_users_duplicate_username_is_rejected() {
    let r = handle_request(Method::Post, "/users", "{\"username\":\"a\",\"username\":\"b\"}");
    assert_eq!(r.status, 400);
}

#[test]
fn post_users_trailing_comma_is_rejected() {
    let r = handle_request(Method::Post, "/users", "{\"username\":\"a\",}");
    assert_eq!(r.status, 400);
}

#[test]
fn post_users_bad_number_is_rejected() {
    let r = handle_request(Method::Post, "/users", "{\"n\":01,\"username\":\"a\"}");
    assert_eq!(r.status, 400);
    let r = handle_request(Method::Post, "/users", "{\"n\":1.,\"username\":\"a\"}");
    assert_eq!(r.status, 400);
}

#[test]
fn post_users_trailing_garbage_is_rejected() {
    let r = handle_request(Method::Post, "/users", "{\"username\":\"alice\"} extra");
    assert_eq!(r.status, 400);
}

#[test]
fn post_users_unterminated_string_is_rejected() {
    let r = handle_request(Method::Post, "/users", "{\"username\":\"alice");
    assert_eq!(r.status, 400);
}

#[test]
fn post_users_raw_control_char_is_rejected() {
    let r = handle_request(Method::Post, "/users", "{\"username\":\"a\u{0001}b\"}");
    assert_eq!(r.status, 400);
}

#[test]
fn unknown_path_is_not_found() {
    let r = handle_request(Method::Get, "/nope", "");
    assert_eq!(r.status, 404);
    let r = handle_request(Method::Post, "/users/7", "{\"username\":\"alice\"}");
    assert_eq!(r.status, 404);
}

#[test]
fn wrong_method_is_rejected() {
    let r = handle_request(Method::Post, "/", "");
    assert_eq!(r.status, 405);
    let r = handle_request(Method::Get, "/users", "");
    assert_eq!(r.status, 405);
}

#[test]
fn parse_accepts_whitespace() {
    let u = parse_create_user(" {  \"username\" :\t\"alice\"\r\n} ");
    assert_eq!(u, Some("alice".to_string()));
}

#[test]
fn parse_decodes_escapes() {
    let u = parse_create_user("{\"username\":\"a\\nb\\t\\\"c\\\\d\\/e\\b\\f\\r\"}");
    assert_eq!(u, Some("a\nb\t\"c\\d/e\u{0008}\u{000c}\r".to_string()));
}

#[test]
fn parse_decodes_unicode_escapes() {
    let u = parse_create_user("{\"username\":\"\\u0041\\u007a\\u0009\"}");
    assert_eq!(u, Some("Az\t".to_string()));
    let u = parse_create_user("{\"username\":\"\\u00e9\\u4e2d\"}");
    assert_eq!(u, Some("\u{e9}\u{4e2d}".to_string()));
    let u = parse_create_user("{\"username\":\"\\ud83d\\ude00\"}");
    assert_eq!(u, Some("\u{1f600}".to_string()));
}

#[test]
fn parse_rejects_bad_unicode_escapes() {
    assert_eq!(parse_create_user("{\"username\":\"\\u00gg\"}"), None);
    assert_eq!(parse_create_user("{\"username\":\"\\ud800\"}"), None);
    assert_eq!(parse_create_user("{\"username\":\"\\udc00\"}"), None);
    assert_eq!(parse_create_user("{\"username\":\"\\ud83dx\"}"), None);
    assert_eq!(parse_create_user("{\"username\":\"\\u123\"}"), None);
    assert_eq!(parse_create_user("{\"username\":\"\\q\"}"), None);
}

#[test]
fn encoded_bodies_round_trip() {
    let names = [
        "",
        "alice",
        "\u{7530}\u{4e2d} \u{592a}\u{90ce}",
        "with \"quotes\" and \\slashes\\",
        "line\nbreak\ttab\u{0001}low",
        "caf\u{e9} \u{1f600}",
    ];
    for name in names {
        let body = create_user_body(name);
        assert_eq!(parse_create_user(&body), Some(name.to_string()));
        let r = handle_request(Method::Post, "/users", &body);
        assert_eq!(r.status, 201);
    }
}

#[test]
fn distinct_usernames_get_distinct_answers() {
    let a = handle_request(Method::Post, "/users", &create_user_body("alice"));
    let b = handle_request(Method::Post, "/users", &create_user_body("bob"));
    assert_eq!(a.status, 201);
    assert_eq!(b.status, 201);
    assert!(a.body != b.body);
    assert!(a.body.contains("alice"));
    assert!(b.body.contains("bob"));
}

#[test]
fn created_user_has_the_fixed_id() {
    let u = create_user("alice".to_string());
    assert_eq!(u.id, 1337);
    assert_eq!(u.username, "alice");
    assert_eq!(user_to_json(&u), "{\"id\":1337,\"username\":\"alice\"}");
}

#[test]
fn user_json_escapes_the_username() {
    let u = create_user("a\"b\\c\nd".to_string());
    assert_eq!(user_to_json(&u), "{\"id\":1337,\"username\":\"a\\\"b\\\\c\\u000ad\"}");
}

#[test]
fn decimal_rendering_is_exact() {
    assert_eq!(u64_to_string(0), "0");
    assert_eq!(u64_to_string(7), "7");
    assert_eq!(u64_to_string(1337), "1337");
    assert_eq!(u64_to_string(18446744073709551615), "18446744073709551615");
}
