use vstd::prelude::*;
use crate::model::Note;
use crate::model::User;
use crate::response::FilteredNote;
use crate::response::clone_tags;

verus! {

/// The first user carrying this (normalized) email, if any.
pub open spec fn find_user(s: Seq<User>, email: Seq<char>) -> Option<User>
    decreases s.len(),
{
    if s.len() == 0 {
        None
    } else if s[0].email@ == email {
        Some(s[0])
    } else {
        find_user(s.drop_first(), email)
    }
}

/// `find_user` misses exactly when no row carries the email.
pub proof fn lemma_find_user_none(s: Seq<User>, email: Seq<char>)
    ensures
        (find_user(s, email) is None) <==> (forall|i: int|
            0 <= i < s.len() ==> (#[trigger] s[i]).email@ != email),
    decreases s.len(),
{
    if s.len() > 0 {
        lemma_find_user_none(s.drop_first(), email);
        assert(forall|i: int| 0 <= i < s.drop_first().len() ==> s.drop_first()[i] == s[i + 1]);
        if s[0].email@ != email && (find_user(s.drop_first(), email) is None) {
            assert forall|i: int| 0 <= i < s.len() implies (#[trigger] s[i]).email@ != email by {
                if i > 0 {
                    assert(s[i] == s.drop_first()[i - 1]);
                }
            }
        }
    }
}

/// When the first match sits at index `i`, `find_user` returns that row.
pub proof fn lemma_find_user_at(s: Seq<User>, email: Seq<char>, i: int)
    requires
        0 <= i < s.len(),
        s[i].email@ == email,
        forall|j: int| 0 <= j < i ==> (#[trigger] s[j]).email@ != email,
    ensures
        find_user(s, email) == Some(s[i]),
    decreases s.len(),
{
    if i > 0 {
        assert(forall|j: int| 0 <= j < s.drop_first().len() ==> s.drop_first()[j] == s[j + 1]);
        lemma_find_user_at(s.drop_first(), email, i - 1);
    }
}

/// The user store: rows with pairwise distinct emails and ids, ids drawn
/// below the next free one.
pub struct UserStore {
    pub users: Vec<User>,
    pub next_id: u64,
}

impl UserStore {
    /// Well-formed: emails unique, ids unique and below `next_id`.
    pub open spec fn wf(self) -> bool {
        &&& (forall|i: int, j: int|
            0 <= i < j < self.users@.len() ==> (#[trigger] self.users@[i]).email@ != (
            #[trigger] self.users@[j]).email@)
        &&& (forall|i: int| 0 <= i < self.users@.len() ==> (#[trigger] self.users@[i]).id
            < self.next_id)
        &&& (forall|i: int, j: int|
            0 <= i < j < self.users@.len() ==> (#[trigger] self.users@[i]).id != (
            #[trigger] self.users@[j]).id)
    }

    /// An empty store.
    pub fn new() -> (s: UserStore)
        ensures
            s.wf(),
            s.users@.len() == 0,
            s.next_id == 0,
    {
        UserStore { users: Vec::new(), next_id: 0 }
    }

    /// Looks a user up by (already normalized) email.
    pub fn find_by_email(&self, email: &String) -> (r: Option<User>)
        ensures
            r == find_user(self.users@, email@),
    {
        let n = self.users.len();
        let mut i: usize = 0;
        while i < n
            invariant
                n == self.users@.len(),
                i <= n,
                forall|j: int| 0 <= j < i ==> (#[trigger] self.users@[j]).email@ != email@,
            decreases n - i,
        {
            if self.users[i].email.eq(email) {
                proof {
                    lemma_find_user_at(self.users@, email@, i as int);
                }
                let u0 = &self.users[i];
                return Some(
                    User {
                        id: u0.id,
                        email: u0.email.clone(),
                        password: u0.password.clone(),
                        date: u0.date,
                    },
                );
            }
            i = i + 1;
        }
        proof {
            lemma_find_user_none(self.users@, email@);
        }
        None
    }

    /// Adds a row for an email no row carries yet, under a fresh id; the
    /// created row comes back.
    pub fn create(&mut self, email: String, password_hash: String, now: u64) -> (u: User)
        requires
            old(self).wf(),
            find_user(old(self).users@, email@) is None,
            old(self).next_id < u64::MAX,
        ensures
            final(self).wf(),
            final(self).users@ == old(self).users@.push(u),
            final(self).next_id == old(self).next_id + 1,
            u.id == old(self).next_id,
            u.email == email,
            u.password == password_hash,
            u.date == now,
    {
        let id = self.next_id;
        let u = User {
            id,
            email: email.clone(),
            password: password_hash.clone(),
            date: now,
        };
        self.users.push(User { id, email, password: password_hash, date: now });
        self.next_id = id + 1;
        proof {
            lemma_find_user_none(old(self).users@, u.email@);
            assert forall|i: int, j: int|
                0 <= i < j < final(self).users@.len() implies (
            #[trigger] final(self).users@[i]).email@ != (#[trigger] final(self).users@[j]).email@ by {
                if j == final(self).users@.len() - 1 {
                    assert(final(self).users@[i] == old(self).users@[i]);
                }
            }
            assert forall|i: int, j: int|
                0 <= i < j < final(self).users@.len() implies (#[trigger] final(self).users@[i]).id
                != (#[trigger] final(self).users@[j]).id by {
                if j == final(self).users@.len() - 1 {
                    assert(final(self).users@[i] == old(self).users@[i]);
                }
            }
        }
        u
    }
}

/// What a listing for `owner` keeps: notes owned by `owner`, and created
/// after `from` when a bound is given.
pub open spec fn note_pred(owner: u64, from: Option<u64>) -> spec_fn(Note) -> bool {
    |n: Note|
        n.author == owner && (match from {
            Some(f) => n.date > f,
            None => true,
        })
}

/// The client-visible rows `r` render the stored rows `f` faithfully.
pub open spec fn renders_notes(r: Seq<FilteredNote>, f: Seq<Note>) -> bool {
    &&& r.len() == f.len()
    &&& (forall|i: int|
        0 <= i < f.len() ==> (#[trigger] r[i]).content == f[i].content && r[i].tags@ == f[i].tags@
            && r[i].date == f[i].date)
}

/// The note store: rows with unique ids, drawn below the next free one.
pub struct NoteStore {
    pub notes: Vec<Note>,
    pub next_id: u64,
}

impl NoteStore {
    /// Well-formed: ids unique and below `next_id`.
    pub open spec fn wf(self) -> bool {
        &&& (forall|i: int| 0 <= i < self.notes@.len() ==> (#[trigger] self.notes@[i]).id
            < self.next_id)
        &&& (forall|i: int, j: int|
            0 <= i < j < self.notes@.len() ==> (#[trigger] self.notes@[i]).id != (
            #[trigger] self.notes@[j]).id)
    }

    /// An empty store.
    pub fn new() -> (s: NoteStore)
        ensures
            s.wf(),
            s.notes@.len() == 0,
            s.next_id == 0,
    {
        NoteStore { notes: Vec::new(), next_id: 0 }
    }

    /// Appends a note under a fresh id for the given owner; the created
    /// row comes back in its client-visible shape.
    pub fn insert(&mut self, author: u64, content: String, tags: Vec<String>, now: u64) -> (r:
        FilteredNote)
        requires
            old(self).wf(),
            old(self).next_id < u64::MAX,
        ensures
            final(self).wf(),
            final(self).notes@ == old(self).notes@.push(
                (Note { id: old(self).next_id, author, content, tags, date: now }),
            ),
            final(self).next_id == old(self).next_id + 1,
            r.content == content,
            r.tags@ == tags@,
            r.date == now,
    {
        let id = self.next_id;
        let r = FilteredNote { content: content.clone(), tags: clone_tags(&tags), date: now };
        self.notes.push(Note { id, author, content, tags, date: now });
        self.next_id = id + 1;
        proof {
            assert forall|i: int, j: int|
                0 <= i < j < final(self).notes@.len() implies (#[trigger] final(self).notes@[i]).id
                != (#[trigger] final(self).notes@[j]).id by {
                if j == final(self).notes@.len() - 1 {
                    assert(final(self).notes@[i] == old(self).notes@[i]);
                }
            }
        }
        r
    }

    /// The notes owned by `owner`, created after `from` when a bound is
    /// given, in insertion order and client-visible shape.
    pub fn list_by_owner(&self, owner: u64, from: Option<u64>) -> (r: Vec<FilteredNote>)
        ensures
            renders_notes(r@, self.notes@.filter(note_pred(owner, from))),
    {
        let ghost pred = note_pred(owner, from);
        let n = self.notes.len();
        let mut r: Vec<FilteredNote> = Vec::new();
        let mut i: usize = 0;
        proof {
            reveal(Seq::filter);
            assert(self.notes@.take(0).filter(pred) =~= Seq::<Note>::empty());
        }
        while i < n
            invariant
                n == self.notes@.len(),
                i <= n,
                pred == note_pred(owner, from),
                renders_notes(r@, self.notes@.take(i as int).filter(pred)),
            decreases n - i,
        {
            let note = &self.notes[i];
            let keep = note.author == owner && (match from {
                Some(f) => note.date > f,
                None => true,
            });
            proof {
                reveal(Seq::filter);
                assert(self.notes@.take(i + 1).drop_last() =~= self.notes@.take(i as int));
                assert(self.notes@.take(i + 1).last() == self.notes@[i as int]);
                assert(keep == pred(self.notes@[i as int]));
            }
            if keep {
                r.push(FilteredNote::from(note));
            }
            i = i + 1;
        }
        proof {
            assert(self.notes@.take(n as int) =~= self.notes@);
        }
        r
    }
}

/// Cross-tenant isolation: every note a listing for `owner` returns is
/// owned by `owner`, so a listing scoped to one identity never carries
/// another owner's note, whatever the stored rows are.
pub proof fn lemma_listing_isolated(notes: Seq<Note>, owner: u64, other: u64, from: Option<u64>)
    requires
        owner != other,
    ensures
        forall|i: int|
            0 <= i < notes.filter(note_pred(owner, from)).len() ==> (#[trigger] notes.filter(
                note_pred(owner, from),
            )[i]).author == owner && notes.filter(note_pred(owner, from))[i].author != other,
{
    assert forall|i: int|
        0 <= i < notes.filter(note_pred(owner, from)).len() implies (#[trigger] notes.filter(
        note_pred(owner, from),
    )[i]).author == owner && notes.filter(note_pred(owner, from))[i].author != other by {
        notes.lemma_filter_pred(note_pred(owner, from), i);
    }
}

} // verus!
