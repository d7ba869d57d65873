use vstd::prelude::*;
use crate::model::Note;

verus! {

/// The client-visible shape of a note: its content, tags and creation
/// instant, without ids or owner.
pub struct FilteredNote {
    pub content: String,
    pub tags: Vec<String>,
    pub date: u64,
}

/// Copies a tag list, element for element.
pub fn clone_tags(tags: &Vec<String>) -> (r: Vec<String>)
    ensures
        r@ == tags@,
{
    let mut r: Vec<String> = Vec::new();
    let mut i: usize = 0;
    while i < tags.len()
        invariant
            i <= tags@.len(),
            r@ == tags@.take(i as int),
        decreases tags@.len() - i,
    {
        r.push(tags[i].clone());
        i = i + 1;
        proof {
            assert(r@ =~= tags@.take(i as int));
        }
    }
    proof {
        assert(r@ =~= tags@);
    }
    r
}

impl FilteredNote {
    /// The client-visible shape of one stored note.
    pub fn from(note: &Note) -> (r: FilteredNote)
        ensures
            r.content == note.content,
            r.tags@ == note.tags@,
            r.date == note.date,
    {
        FilteredNote { content: note.content.clone(), tags: clone_tags(&note.tags), date: note.date }
    }
}

/// The response of a note listing: the requesting identity's email and
/// its notes.
pub struct NotesResponse {
    pub author: String,
    pub notes: Vec<FilteredNote>,
}

} // verus!
