use vstd::prelude::*;

verus! {

/// The query of a note listing: an optional lower bound (exclusive) on
/// the creation instant, seconds since the Unix epoch.
pub struct GetNotes {
    pub from: Option<u64>,
}

/// The body of a note creation.
pub struct PostNote {
    pub content: String,
    pub tags: Vec<String>,
}

/// The body of a login attempt.
pub struct LoginUser {
    pub email: String,
    pub password: String,
}

} // verus!
