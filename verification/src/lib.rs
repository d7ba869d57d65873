//! The authentication and session-authorization core of a small
//! multi-tenant note service: salted credential hashing, a signed and
//! time-bound session-token codec, the request gate that turns tokens
//! into identities, the login-or-register flow, and identity-scoped note
//! access over in-memory stores.

pub mod claims;
pub mod codec;
pub mod digits;
pub mod email;
pub mod flow;
pub mod gate;
pub mod hashing;
pub mod model;
pub mod payload;
pub mod request;
pub mod response;
pub mod store;
pub mod strutil;
