//! A minimal HTTP service core: a router that binds two routes — a static
//! greeting and a user-creation stub that echoes a posted username with a
//! fixed identifier — together with the JSON body format the routes speak.
//!
//! Everything observable about a request/response exchange is computed here
//! as a pure function of the method, path and body; the surrounding server
//! only moves bytes.

pub mod json;
pub mod router;

pub use router::ContentType;
pub use router::Method;
pub use router::Response;
pub use router::User;
pub use router::create_user;
pub use router::create_user_response;
pub use router::handle_request;
pub use router::root;
pub use router::user_to_json;
pub use json::create_user_body;
pub use json::parse_create_user;
pub use json::u64_to_string;
