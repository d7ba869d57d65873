use vstd::prelude::*;

verus! {

/// A stored credential row: created on first login for an unseen email,
/// never mutated afterwards. The email is kept case-normalized; the
/// password field holds the opaque, algorithm-tagged hash string; the
/// date is seconds since the Unix epoch.
pub struct User {
    pub id: u64,
    pub email: String,
    pub password: String,
    pub date: u64,
}

/// A stored note row, immutable after creation. `author` references the
/// owning user's id; the date is seconds since the Unix epoch.
pub struct Note {
    pub id: u64,
    pub author: u64,
    pub content: String,
    pub tags: Vec<String>,
    pub date: u64,
}

} // verus!
