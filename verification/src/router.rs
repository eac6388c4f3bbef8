//! The route table and the two handlers.
//!
//! [`handle_request`] is the whole observable behaviour of the service: a
//! pure function of method, path and body, pinned request by request by
//! [`spec_handle`]. The root route greets; the user route decodes a posted
//! username and echoes it back, with the fixed identifier, as JSON.

use vstd::prelude::*;

use crate::json::dec_rep;
use crate::json::escape_chars;
use crate::json::escape_string;
use crate::json::chars_eq_str;
use crate::json::parse_create_user;
use crate::json::spec_username_of;
use crate::json::str_to_chars;
use crate::json::u64_to_string;

verus! {

/// The HTTP methods the route table distinguishes.
#[derive(Clone, Copy, Debug, PartialEq, Eq, Structural)]
pub enum Method {
    Get,
    Post,
}

/// The media type of a response body.
#[derive(Clone, Copy, Debug, PartialEq, Eq, Structural)]
pub enum ContentType {
    TextPlain,
    ApplicationJson,
}

/// A response: status code, media type, body.
pub struct Response {
    pub status: u16,
    pub content_type: ContentType,
    pub body: String,
}

/// The mathematical shadow of a [`Response`].
pub ghost struct SpecResponse {
    pub status: u16,
    pub content_type: ContentType,
    pub body: Seq<char>,
}

impl View for Response {
    type V = SpecResponse;

    open spec fn view(&self) -> SpecResponse {
        SpecResponse { status: self.status, content_type: self.content_type, body: self.body@ }
    }
}

/// A created user: the fixed identifier and the echoed username.
pub struct User {
    pub id: u64,
    pub username: String,
}

/// The JSON rendering of a user: `{"id":<id>,"username":"<escaped>"}`.
pub open spec fn spec_user_json(id: int, username: Seq<char>) -> Seq<char> {
    "{\"id\":"@ + dec_rep(id) + ",\"username\":\""@ + escape_string(username) + "\"}"@
}

/// The greeting served at the root route.
pub fn root() -> (r: &'static str)
    ensures
        r@ == "Hello, World!"@,
{
    "Hello, World!"
}

/// Make the user a posted username names: the fixed identifier, the
/// username copied verbatim.
pub fn create_user(username: String) -> (u: User)
    ensures
        u.id == 1337,
        u.username@ == username@,
{
    User { id: 1337, username }
}

/// Render a user as JSON.
pub fn user_to_json(u: &User) -> (r: String)
    ensures
        r@ == spec_user_json(u.id as int, u.username@),
{
    let mut out = String::from_str("{\"id\":");
    let id_digits = u64_to_string(u.id);
    out.append(id_digits.as_str());
    out.append(",\"username\":\"");
    let escaped_chars = escape_chars(&str_to_chars(u.username.as_str()));
    let escaped = crate::json::chars_to_string(escaped_chars);
    out.append(escaped.as_str());
    out.append("\"}");
    out
}

/// What the user route answers on `body`: 201 with the user echoed as JSON
/// where the body decodes, 400 with an empty body where it does not.
pub open spec fn spec_users_response(body: Seq<char>) -> SpecResponse {
    match spec_username_of(body) {
        Some(u) => SpecResponse {
            status: 201,
            content_type: ContentType::ApplicationJson,
            body: spec_user_json(1337, u),
        },
        None => SpecResponse {
            status: 400,
            content_type: ContentType::TextPlain,
            body: Seq::empty(),
        },
    }
}

/// What the service answers: the greeting on `GET /`, user creation on
/// `POST /users`, 405 on the wrong method for a bound path, 404 elsewhere.
pub open spec fn spec_handle(m: Method, path: Seq<char>, body: Seq<char>) -> SpecResponse {
    if path == "/"@ {
        if m == Method::Get {
            SpecResponse {
                status: 200,
                content_type: ContentType::TextPlain,
                body: "Hello, World!"@,
            }
        } else {
            SpecResponse { status: 405, content_type: ContentType::TextPlain, body: Seq::empty() }
        }
    } else if path == "/users"@ {
        if m == Method::Post {
            spec_users_response(body)
        } else {
            SpecResponse { status: 405, content_type: ContentType::TextPlain, body: Seq::empty() }
        }
    } else {
        SpecResponse { status: 404, content_type: ContentType::TextPlain, body: Seq::empty() }
    }
}

// ---------------------------------------------------------------------------
// Laws
// ---------------------------------------------------------------------------

/// Law: `GET /` always answers 200 with exactly `Hello, World!`, whatever
/// body came with the request.
pub proof fn lemma_root_constant(body: Seq<char>)
    ensures
        spec_handle(Method::Get, "/"@, body).status == 200,
        spec_handle(Method::Get, "/"@, body).content_type == ContentType::TextPlain,
        spec_handle(Method::Get, "/"@, body).body == "Hello, World!"@,
{
}

/// The two bound paths are distinct.
proof fn lemma_paths_distinct()
    ensures
        "/users"@ != "/"@,
{
    reveal_strlit("/");
    reveal_strlit("/users");
    assert("/users"@.len() != "/"@.len());
}

/// Law: every username round-trips through the service. Posting the
/// canonical body for `s` — any text at all, multi-byte or empty — answers
/// 201 with the user echoing `s` exactly.
pub proof fn lemma_post_round_trip(s: Seq<char>)
    ensures
        spec_handle(Method::Post, "/users"@, crate::json::spec_create_user_body(s)).status == 201,
        spec_handle(Method::Post, "/users"@, crate::json::spec_create_user_body(s)).content_type
            == ContentType::ApplicationJson,
        spec_handle(Method::Post, "/users"@, crate::json::spec_create_user_body(s)).body
            == spec_user_json(1337, s),
{
    lemma_paths_distinct();
    crate::json::lemma_create_user_body_round_trip(s);
}

/// Law: a body that does not decode — missing the `username` member, or not
/// JSON at all — is answered with a client error, never a success.
pub proof fn lemma_undecodable_rejected(body: Seq<char>)
    requires
        spec_username_of(body) is None,
    ensures
        spec_handle(Method::Post, "/users"@, body).status == 400,
        !(200 <= spec_handle(Method::Post, "/users"@, body).status < 300),
{
    lemma_paths_distinct();
}

/// Law: requests cannot interfere. The response to a posted body is a
/// function of that body alone — so any number of user creations, however
/// interleaved, each echo their own username — and distinct usernames give
/// distinct response bodies.
pub proof fn lemma_requests_independent(s1: Seq<char>, s2: Seq<char>)
    ensures
        spec_handle(Method::Post, "/users"@, crate::json::spec_create_user_body(s1)).body
            == spec_user_json(1337, s1),
        spec_handle(Method::Post, "/users"@, crate::json::spec_create_user_body(s2)).body
            == spec_user_json(1337, s2),
        s1 != s2 ==> spec_handle(
            Method::Post,
            "/users"@,
            crate::json::spec_create_user_body(s1),
        ).body != spec_handle(Method::Post, "/users"@, crate::json::spec_create_user_body(s2)).body,
{
    lemma_post_round_trip(s1);
    lemma_post_round_trip(s2);
    if s1 != s2 && spec_user_json(1337, s1) == spec_user_json(1337, s2) {
        let head = "{\"id\":"@ + dec_rep(1337) + ",\"username\":\""@;
        let e1 = escape_string(s1);
        let e2 = escape_string(s2);
        let hl = head.len() as int;
        assert(spec_user_json(1337, s1) == head + e1 + "\"}"@);
        assert(spec_user_json(1337, s2) == head + e2 + "\"}"@);
        assert(e1.len() == e2.len());
        assert(e1 =~= e2) by {
            assert forall|k: int| 0 <= k < e1.len() implies e1[k] == e2[k] by {
                assert((head + e1 + "\"}"@)[hl + k] == e1[k]);
                assert((head + e2 + "\"}"@)[hl + k] == e2[k]);
            }
        }
        crate::json::lemma_escape_injective(s1, s2);
    }
}

/// Answer one request to the user route.
pub fn create_user_response(body: &str) -> (r: Response)
    ensures
        r@.status == spec_users_response(body@).status,
        r@.content_type == spec_users_response(body@).content_type,
        r@.body == spec_users_response(body@).body,
{
    match parse_create_user(body) {
        Some(username) => {
            let user = create_user(username);
            let rendered = user_to_json(&user);
            Response { status: 201, content_type: ContentType::ApplicationJson, body: rendered }
        },
        None => Response {
            status: 400,
            content_type: ContentType::TextPlain,
            body: String::new(),
        },
    }
}

/// Answer one request: dispatch on method and path, then run the handler.
pub fn handle_request(m: Method, path: &str, body: &str) -> (r: Response)
    ensures
        r@.status == spec_handle(m, path@, body@).status,
        r@.content_type == spec_handle(m, path@, body@).content_type,
        r@.body == spec_handle(m, path@, body@).body,
{
    let path_chars = str_to_chars(path);
    if chars_eq_str(&path_chars, "/") {
        match m {
            Method::Get => Response {
                status: 200,
                content_type: ContentType::TextPlain,
                body: String::from_str(root()),
            },
            Method::Post => Response {
                status: 405,
                content_type: ContentType::TextPlain,
                body: String::new(),
            },
        }
    } else if chars_eq_str(&path_chars, "/users") {
        match m {
            Method::Post => create_user_response(body),
            Method::Get => Response {
                status: 405,
                content_type: ContentType::TextPlain,
                body: String::new(),
            },
        }
    } else {
        Response { status: 404, content_type: ContentType::TextPlain, body: String::new() }
    }
}

} // verus!
