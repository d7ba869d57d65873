use vstd::prelude::*;
use vstd::string::StringExecFns;
use crate::claims::SESSION_LIFETIME_SECONDS;
use crate::claims::SessionClaims;
use crate::claims::make_claims;
use crate::codec::issue;
use crate::codec::token_of;
use crate::email::lower_seq;
use crate::email::normalize_email;
use crate::hashing::hash_password;
use crate::hashing::password_matches;
use crate::hashing::verify_password;
use crate::model::Note;
use crate::request::GetNotes;
use crate::request::LoginUser;
use crate::request::PostNote;
use crate::response::FilteredNote;
use crate::response::NotesResponse;
use crate::store::NoteStore;
use crate::store::UserStore;
use crate::store::find_user;
use crate::store::note_pred;
use crate::store::renders_notes;

verus! {

/// Why a login attempt failed.
#[derive(Clone, Copy, Debug, PartialEq, Eq, Structural)]
pub enum LoginError {
    /// The email is known and the password does not match its hash. The
    /// client-visible message never says which of the two was wrong.
    InvalidCredentials,
    /// The password hasher reported an error while registering.
    HashingUnavailable,
}

/// A successful login: the issued token, the cookie that carries it, the
/// claims inside it, and whether the attempt registered a new user.
pub struct LoginSuccess {
    pub token: String,
    pub cookie: String,
    pub claims: SessionClaims,
    pub registered: bool,
}

/// The session cookie carrying a token: whole-path, expiring with the
/// session, same-site lax and unreadable from scripts.
pub open spec fn login_cookie_of(token: Seq<char>) -> Seq<char> {
    "token="@ + token + "; Path=/; Max-Age=2419200; SameSite=Lax; HttpOnly"@
}

/// The cookie that discards a session: same name, empty value, already
/// expired. Advisory only: the server keeps no session state, so copies
/// of the old token stay valid until their expiry.
pub open spec fn logout_cookie_of() -> Seq<char> {
    "token=; Path=/; Max-Age=0; SameSite=Lax; HttpOnly"@
}

/// Builds the session cookie for a freshly issued token.
pub fn login_cookie(token: &str) -> (r: String)
    ensures
        r@ == login_cookie_of(token@),
{
    let mut s = String::from_str("token=");
    s.append(token);
    s.append("; Path=/; Max-Age=2419200; SameSite=Lax; HttpOnly");
    s
}

/// Builds the cookie a logout answers with.
pub fn logout_cookie() -> (r: String)
    ensures
        r@ == logout_cookie_of(),
{
    String::from_str("token=; Path=/; Max-Age=0; SameSite=Lax; HttpOnly")
}

/// Registers a user under a normalized email no row carries yet, with an
/// already derived password hash, and opens their first session.
pub fn register_user(
    users: &mut UserStore,
    email_norm: String,
    password_hash: String,
    now: u64,
    secret: &[u8],
) -> (s: LoginSuccess)
    requires
        old(users).wf(),
        find_user(old(users).users@, email_norm@) is None,
        old(users).next_id < u64::MAX,
        now + SESSION_LIFETIME_SECONDS <= u64::MAX,
    ensures
        final(users).wf(),
        final(users).users@ == old(users).users@.push(final(users).users@.last()),
        final(users).users@.last().id == old(users).next_id,
        final(users).users@.last().email == email_norm,
        final(users).users@.last().password == password_hash,
        final(users).users@.last().date == now,
        final(users).next_id == old(users).next_id + 1,
        s.registered,
        s.claims.subject == old(users).next_id,
        s.claims.email@ == email_norm@,
        s.claims.issued_at == now,
        s.claims.expires_at == now + SESSION_LIFETIME_SECONDS,
        s.token@ == token_of(s.claims, secret@),
        s.cookie@ == login_cookie_of(s.token@),
{
    let u = users.create(email_norm, password_hash, now);
    let claims = make_claims(u.id, u.email, now);
    let token = issue(&claims, secret);
    let cookie = login_cookie(token.as_str());
    LoginSuccess { token, cookie, claims, registered: true }
}

/// One login attempt: normalizes the email, authenticates a known user
/// against their stored hash, and registers an unseen email on the fly.
///
/// A known email with a wrong password is turned away with nothing
/// stored or issued; a known email with the right password gets a fresh
/// session and the store stays as it was; an unseen email gets a row and
/// a fresh session, unless the hasher fails, in which case nothing is
/// stored.
///
/// Registration-on-first-login is kept deliberately: the rejection names
/// neither email nor password, but the register branch itself lets a
/// caller tell unseen emails apart, a trade of simplicity against an
/// account-enumeration oracle.
pub fn login(users: &mut UserStore, request: &LoginUser, now: u64, secret: &[u8]) -> (r: Result<
    LoginSuccess,
    LoginError,
>)
    requires
        old(users).wf(),
        old(users).next_id < u64::MAX,
        now + SESSION_LIFETIME_SECONDS <= u64::MAX,
    ensures
        final(users).wf(),
        find_user(old(users).users@, lower_seq(request.email@)) matches Some(u) ==> ({
            &&& password_matches(request.password@, u.password@) ==> (r matches Ok(s) && !s.registered
                && s.claims.subject == u.id && s.claims.email@ == u.email@ && s.claims.issued_at
                == now && s.claims.expires_at == now + SESSION_LIFETIME_SECONDS && s.token@
                == token_of(s.claims, secret@) && s.cookie@ == login_cookie_of(s.token@)
                && *final(users) == *old(users))
            &&& !password_matches(request.password@, u.password@) ==> r == Err::<
                LoginSuccess,
                LoginError,
            >(LoginError::InvalidCredentials) && *final(users) == *old(users)
        }),
        find_user(old(users).users@, lower_seq(request.email@)) is None ==> ({
            &&& (r matches Ok(s) ==> (s.registered && final(users).users@
                == old(users).users@.push(final(users).users@.last())
                && final(users).users@.last().id == old(users).next_id
                && final(users).users@.last().email@ == lower_seq(request.email@) && password_matches(
                request.password@,
                final(users).users@.last().password@,
            ) && final(users).users@.last().date == now && s.claims.subject == old(users).next_id
                && s.claims.email@ == lower_seq(request.email@) && s.claims.issued_at == now
                && s.claims.expires_at == now + SESSION_LIFETIME_SECONDS && s.token@ == token_of(
                s.claims,
                secret@,
            ) && s.cookie@ == login_cookie_of(s.token@)))
            &&& (r is Err ==> r == Err::<LoginSuccess, LoginError>(LoginError::HashingUnavailable)
                && *final(users) == *old(users))
        }),
{
    let norm = normalize_email(request.email.as_str());
    match users.find_by_email(&norm) {
        Some(u) => {
            if verify_password(request.password.as_str(), u.password.as_str()) {
                let claims = make_claims(u.id, u.email, now);
                let token = issue(&claims, secret);
                let cookie = login_cookie(token.as_str());
                Ok(LoginSuccess { token, cookie, claims, registered: false })
            } else {
                Err(LoginError::InvalidCredentials)
            }
        },
        None => {
            match hash_password(request.password.as_str()) {
                Some(h) => Ok(register_user(users, norm, h, now, secret)),
                None => Err(LoginError::HashingUnavailable),
            }
        },
    }
}

/// The notes of the authenticated identity, scoped to it alone: only the
/// subject resolved at the door decides whose rows come back.
pub fn get_notes(notes: &NoteStore, identity: &SessionClaims, request: &GetNotes) -> (r:
    NotesResponse)
    ensures
        r.author == identity.email,
        renders_notes(r.notes@, notes.notes@.filter(note_pred(identity.subject, request.from))),
{
    NotesResponse {
        author: identity.email.clone(),
        notes: notes.list_by_owner(identity.subject, request.from),
    }
}

/// Stores a note for the authenticated identity: the owner written is
/// the verified subject, never anything client-supplied.
pub fn create_note(
    notes: &mut NoteStore,
    identity: &SessionClaims,
    request: PostNote,
    now: u64,
) -> (r: FilteredNote)
    requires
        old(notes).wf(),
        old(notes).next_id < u64::MAX,
    ensures
        final(notes).wf(),
        final(notes).notes@ == old(notes).notes@.push(
            (Note {
                id: old(notes).next_id,
                author: identity.subject,
                content: request.content,
                tags: request.tags,
                date: now,
            }),
        ),
        final(notes).next_id == old(notes).next_id + 1,
        r.content == request.content,
        r.tags@ == request.tags@,
        r.date == now,
{
    notes.insert(identity.subject, request.content, request.tags, now)
}

} // verus!
