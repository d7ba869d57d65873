use notekeeper::flow::{create_note, get_notes, login, LoginError};
use notekeeper::request::{GetNotes, LoginUser, PostNote};
use notekeeper::gate::auth_gate;
use notekeeper::store::{NoteStore, UserStore};

const SECRET: &[u8] = b"test-signing-secret";

#[test]
fn first_login_registers_and_an_empty_listing_follows() {
    let mut users = UserStore::new();
    let notes = NoteStore::new();

    let s = login(&mut users, &LoginUser { email: String::from("a@x.com"), password: String::from("pw1") }, 1000, SECRET).expect("first login");
    assert!(s.registered);
    assert_eq!(users.users.len(), 1);
    assert_eq!(users.users[0].email, "a@x.com");
    assert!(s.cookie.starts_with("token="));

    let identity = auth_gate(Some(s.token.as_str()), None, SECRET, 1001).expect("gate");
    let listing = get_notes(&notes, &identity, &GetNotes { from: None });
    assert_eq!(listing.author, "a@x.com");
    assert!(listing.notes.is_empty());
}

#[test]
fn login_normalizes_the_email_before_lookup() {
    let mut users = UserStore::new();
    let s1 = login(&mut users, &LoginUser { email: String::from("A@X.com"), password: String::from("pw1") }, 1000, SECRET).expect("register");
    assert!(s1.registered);
    assert_eq!(users.users[0].email, "a@x.com");

    let s2 = login(&mut users, &LoginUser { email: String::from("a@X.COM"), password: String::from("pw1") }, 1100, SECRET).expect("second login");
    assert!(!s2.registered);
    assert_eq!(users.users.len(), 1);
}

#[test]
fn posted_note_comes_back_in_the_next_listing() {
    let mut users = UserStore::new();
    let mut notes = NoteStore::new();

    let s = login(&mut users, &LoginUser { email: String::from("a@x.com"), password: String::from("pw1") }, 1000, SECRET).expect("login");
    let identity = auth_gate(Some(s.token.as_str()), None, SECRET, 1001).expect("gate");

    let created = create_note(&mut notes, &identity, PostNote { content: String::from("hi"), tags: vec![String::from("x")] }, 2000);
    assert_eq!(created.content, "hi");
    assert_eq!(created.tags, vec![String::from("x")]);
    assert_eq!(created.date, 2000);

    let listing = get_notes(&notes, &identity, &GetNotes { from: None });
    assert_eq!(listing.notes.len(), 1);
    assert_eq!(listing.notes[0].content, "hi");
    assert_eq!(listing.notes[0].tags, vec![String::from("x")]);
    assert_eq!(listing.notes[0].date, 2000);
}

#[test]
fn wrong_password_rejects_without_a_new_row_or_token() {
    let mut users = UserStore::new();
    login(&mut users, &LoginUser { email: String::from("a@x.com"), password: String::from("pw1") }, 1000, SECRET).expect("register");
    assert_eq!(users.users.len(), 1);

    let r = login(&mut users, &LoginUser { email: String::from("a@x.com"), password: String::from("wrongpw") }, 1100, SECRET);
    assert_eq!(r.err(), Some(LoginError::InvalidCredentials));
    assert_eq!(users.users.len(), 1);
}

#[test]
fn listings_are_scoped_to_the_requesting_identity() {
    let mut users = UserStore::new();
    let mut notes = NoteStore::new();

    let sa = login(&mut users, &LoginUser { email: String::from("a@x.com"), password: String::from("pwa") }, 1000, SECRET).expect("login a");
    let sb = login(&mut users, &LoginUser { email: String::from("b@x.com"), password: String::from("pwb") }, 1001, SECRET).expect("login b");
    let ida = auth_gate(Some(sa.token.as_str()), None, SECRET, 1002).expect("gate a");
    let idb = auth_gate(Some(sb.token.as_str()), None, SECRET, 1002).expect("gate b");
    assert_ne!(ida.subject, idb.subject);

    create_note(&mut notes, &ida, PostNote { content: String::from("a-secret"), tags: vec![] }, 2000);
    create_note(&mut notes, &idb, PostNote { content: String::from("b-note"), tags: vec![] }, 2001);

    let la = get_notes(&notes, &ida, &GetNotes { from: None });
    assert_eq!(la.notes.len(), 1);
    assert_eq!(la.notes[0].content, "a-secret");

    let lb = get_notes(&notes, &idb, &GetNotes { from: None });
    assert_eq!(lb.notes.len(), 1);
    assert_eq!(lb.notes[0].content, "b-note");
}

#[test]
fn a_note_is_owned_by_the_verified_identity_not_the_body() {
    // The creation interface carries no owner field at all: the only
    // owner ever written is the verified subject.
    let mut users = UserStore::new();
    let mut notes = NoteStore::new();
    let s = login(&mut users, &LoginUser { email: String::from("a@x.com"), password: String::from("pw") }, 1000, SECRET).expect("login");
    let identity = auth_gate(Some(s.token.as_str()), None, SECRET, 1001).expect("gate");
    create_note(&mut notes, &identity, PostNote { content: String::from("hi"), tags: vec![] }, 2000);
    assert_eq!(notes.notes[0].author, identity.subject);
}

#[test]
fn listing_honours_the_from_bound() {
    let mut users = UserStore::new();
    let mut notes = NoteStore::new();
    let s = login(&mut users, &LoginUser { email: String::from("a@x.com"), password: String::from("pw") }, 1000, SECRET).expect("login");
    let identity = auth_gate(Some(s.token.as_str()), None, SECRET, 1001).expect("gate");

    create_note(&mut notes, &identity, PostNote { content: String::from("old"), tags: vec![] }, 100);
    create_note(&mut notes, &identity, PostNote { content: String::from("new"), tags: vec![] }, 200);

    let all = get_notes(&notes, &identity, &GetNotes { from: None });
    assert_eq!(all.notes.len(), 2);
    assert_eq!(all.notes[0].content, "old");
    assert_eq!(all.notes[1].content, "new");

    let late = get_notes(&notes, &identity, &GetNotes { from: Some(100) });
    assert_eq!(late.notes.len(), 1);
    assert_eq!(late.notes[0].content, "new");

    let none = get_notes(&notes, &identity, &GetNotes { from: Some(200) });
    assert!(none.notes.is_empty());
}

#[test]
fn second_login_issues_a_usable_fresh_session() {
    let mut users = UserStore::new();
    let s1 = login(&mut users, &LoginUser { email: String::from("a@x.com"), password: String::from("pw1") }, 1000, SECRET).expect("register");
    let s2 = login(&mut users, &LoginUser { email: String::from("a@x.com"), password: String::from("pw1") }, 5000, SECRET).expect("second login");
    assert!(!s2.registered);
    assert_eq!(s2.claims.issued_at, 5000);
    let identity = auth_gate(Some(s2.token.as_str()), None, SECRET, 5001).expect("gate");
    assert_eq!(identity.subject, s1.claims.subject);
}
