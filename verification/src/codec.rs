use vstd::prelude::*;
use crate::claims::SessionClaims;
use crate::claims::claims_eq;
use crate::digits::dec_of;
use crate::digits::lemma_dec_of_canonical;
use crate::digits::lemma_dec_of_injective;
use crate::digits::parse_dec;
use crate::digits::push_dec;
use crate::payload::find_dot;
use crate::payload::lemma_dec_dot_free;
use crate::payload::lemma_first_dot;
use crate::payload::lemma_payload_injective;
use crate::payload::parse_payload;
use crate::payload::payload_of;
use crate::payload::serialize_payload;
use crate::payload::sub_chars;
use crate::strutil::chars_to_string;
use crate::strutil::extend_chars;
use crate::strutil::str_to_chars;
use vstd::string::StrSliceExecFns;

verus! {

/// Why a presented token was rejected. The three reasons stay
/// distinguishable here; a boundary may flatten them into one response.
#[derive(Clone, Copy, Debug, PartialEq, Eq, Structural)]
pub enum TokenError {
    /// The token does not have the shape of any issued token.
    Malformed,
    /// The keyed signature does not match the carried claims.
    BadSignature,
    /// Signature and shape are good, but the expiry has passed.
    Expired,
}

/// The keyed message-authentication code that the signing primitive
/// produces for a message under a key: a pure function of both.
pub uninterp spec fn mac_of(message: Seq<char>, key: Seq<u8>) -> Seq<char>;

/// Relies on `jsonwebtoken::crypto::sign` with HS256, which always
/// returns the base64url rendering of the HMAC-SHA256 tag of the message
/// under the key: a deterministic function of message and key alone.
#[verifier::external_body]
fn sign_str(message: &str, key: &[u8]) -> (r: String)
    ensures
        r@ == mac_of(message@, key@),
{
    match jsonwebtoken::crypto::sign(
        message.as_bytes(),
        &jsonwebtoken::EncodingKey::from_secret(key),
        jsonwebtoken::Algorithm::HS256,
    ) {
        Ok(s) => s,
        Err(_) => String::new(),
    }
}

/// Relies on `jsonwebtoken::crypto::verify` with HS256, which re-signs
/// the message and compares the rendered tags in constant time; for the
/// HMAC algorithms it never fails, so the error arm is unreachable and
/// mapped to a mismatch.
#[verifier::external_body]
fn verify_sig(signature: &str, message: &str, key: &[u8]) -> (r: bool)
    ensures
        r == (signature@ == mac_of(message@, key@)),
{
    match jsonwebtoken::crypto::verify(
        signature,
        message.as_bytes(),
        &jsonwebtoken::DecodingKey::from_secret(key),
        jsonwebtoken::Algorithm::HS256,
    ) {
        Ok(b) => b,
        Err(_) => false,
    }
}

/// The signature carried by the token issued for these claims.
pub open spec fn token_mac(c: SessionClaims, secret: Seq<u8>) -> Seq<char> {
    mac_of(payload_of(c), secret)
}

/// The one token issued for these claims under this secret: the length
/// of the signature in decimal, the signature, and the serialized
/// claims, dot-separated.
pub open spec fn token_of(c: SessionClaims, secret: Seq<u8>) -> Seq<char> {
    dec_of(token_mac(c, secret).len() as int) + seq!['.'] + token_mac(c, secret) + seq!['.']
        + payload_of(c)
}

/// Where each part of an issued token lies, given the position of its
/// first dot.
proof fn lemma_canonical_structure(c: SessionClaims, secret: Seq<u8>, w: Seq<char>, d0: int)
    requires
        w == token_of(c, secret),
        0 <= d0 < w.len(),
        w[d0] == '.',
        forall|j: int| 0 <= j < d0 ==> w[j] != '.',
    ensures
        d0 == dec_of(token_mac(c, secret).len() as int).len(),
        w.subrange(0, d0) == dec_of(token_mac(c, secret).len() as int),
        w.len() == d0 + 1 + token_mac(c, secret).len() + 1 + payload_of(c).len(),
        w[d0 + 1 + token_mac(c, secret).len()] == '.',
        w.subrange(d0 + 1, d0 + 1 + token_mac(c, secret).len()) == token_mac(c, secret),
        w.subrange(d0 + 2 + token_mac(c, secret).len(), w.len() as int) == payload_of(c),
{
    let m = token_mac(c, secret);
    let d = dec_of(m.len() as int);
    let p = payload_of(c);
    let tail = m + seq!['.'] + p;
    lemma_dec_dot_free(m.len() as int);
    assert(w =~= d + seq!['.'] + tail);
    lemma_first_dot(d, tail);
    assert(d0 == d.len()) by {
        if d0 < d.len() {
            assert(w[d0] != '.');
        }
        if d0 > d.len() {
            assert(w[d.len() as int] == '.');
        }
    }
    assert(w.subrange(0, d0) =~= d);
    assert(forall|j: int| 0 <= j < tail.len() ==> w[d0 + 1 + j] == tail[j]);
    assert(tail[m.len() as int] == '.');
    assert(w[d0 + 1 + m.len()] == '.');
    assert(w.subrange(d0 + 1, d0 + 1 + m.len() as int) =~= m) by {
        assert(forall|j: int| 0 <= j < m.len() ==> tail[j] == m[j]);
    }
    assert(w.subrange(d0 + 2 + m.len() as int, w.len() as int) =~= p) by {
        assert(forall|j: int| 0 <= j < p.len() ==> tail[m.len() + 1 + j] == p[j]);
    }
}

/// Two claim sets with the same token agree on every field: the token
/// pins the claims, so an accepted token identifies one session only.
pub proof fn lemma_token_injective(c1: SessionClaims, c2: SessionClaims, secret: Seq<u8>)
    requires
        token_of(c1, secret) == token_of(c2, secret),
    ensures
        claims_eq(c1, c2),
{
    let m1 = token_mac(c1, secret);
    let m2 = token_mac(c2, secret);
    let tail1 = m1 + seq!['.'] + payload_of(c1);
    let tail2 = m2 + seq!['.'] + payload_of(c2);
    assert(token_of(c1, secret) =~= dec_of(m1.len() as int) + seq!['.'] + tail1);
    assert(token_of(c2, secret) =~= dec_of(m2.len() as int) + seq!['.'] + tail2);
    lemma_dec_dot_free(m1.len() as int);
    lemma_dec_dot_free(m2.len() as int);
    crate::payload::lemma_split_at_dot(
        dec_of(m1.len() as int),
        tail1,
        dec_of(m2.len() as int),
        tail2,
    );
    lemma_dec_of_injective(m1.len() as int, m2.len() as int);
    assert(payload_of(c1) =~= payload_of(c2)) by {
        assert(forall|j: int| 0 <= j < payload_of(c1).len() ==> payload_of(c1)[j] == tail1[m1.len()
            + 1 + j] && payload_of(c2)[j] == tail2[m2.len() + 1 + j]);
    }
    lemma_payload_injective(c1, c2);
}

/// Equal claims are issued the same token: the token depends on the
/// claim fields alone.
pub proof fn lemma_claims_fix_token(c1: SessionClaims, c2: SessionClaims, secret: Seq<u8>)
    requires
        claims_eq(c1, c2),
    ensures
        token_of(c1, secret) == token_of(c2, secret),
{
    assert(payload_of(c1) == payload_of(c2));
}

/// Issues the signed session token for these claims under the secret.
pub fn issue(c: &SessionClaims, secret: &[u8]) -> (t: String)
    ensures
        t@ == token_of(*c, secret@),
{
    let payload = serialize_payload(c);
    let payload_s = chars_to_string(&payload);
    let mac = sign_str(payload_s.as_str(), secret);
    let mac_chars = str_to_chars(mac.as_str());
    let mut tok: Vec<char> = Vec::new();
    push_dec(&mut tok, mac_chars.len() as u64);
    tok.push('.');
    extend_chars(&mut tok, &mac_chars);
    tok.push('.');
    extend_chars(&mut tok, &payload);
    proof {
        assert(tok@ =~= token_of(*c, secret@));
    }
    chars_to_string(&tok)
}

/// Checks a presented token under the secret at instant `now`.
///
/// Accepts exactly the tokens issued for some claims whose expiry lies
/// after `now`, and then returns those claims: the signature is checked
/// before the claims are trusted, and a good signature with a passed
/// expiry is reported as expired.
#[verifier::rlimit(100)]
pub fn verify_token(token: &str, secret: &[u8], now: u64) -> (r: Result<SessionClaims, TokenError>)
    ensures
        r matches Ok(c) ==> token@ == token_of(c, secret@) && now < c.expires_at,
        forall|c: SessionClaims|
            token@ == #[trigger] token_of(c, secret@) && now < c.expires_at ==> (r matches Ok(rc)
                && claims_eq(rc, c)),
        forall|c: SessionClaims|
            token@ == #[trigger] token_of(c, secret@) && now >= c.expires_at ==> r == Err::<
                SessionClaims,
                TokenError,
            >(TokenError::Expired),
{
    let v = str_to_chars(token);
    let n = v.len();
    let d0 = match find_dot(&v, 0) {
        Some(d) => d,
        None => {
            proof {
                assert forall|c: SessionClaims| token@ != #[trigger] token_of(c, secret@) by {
                    if token@ == token_of(c, secret@) {
                        let m = token_mac(c, secret@);
                        lemma_dec_dot_free(m.len() as int);
                        lemma_first_dot(
                            dec_of(m.len() as int),
                            m + seq!['.'] + payload_of(c),
                        );
                        assert(token@ =~= dec_of(m.len() as int) + seq!['.'] + (m + seq!['.']
                            + payload_of(c)));
                        assert(v@[dec_of(m.len() as int).len() as int] == '.');
                    }
                }
            }
            return Err(TokenError::Malformed);
        },
    };
    let klen = match parse_dec(&v, 0, d0) {
        Some(x) => x,
        None => {
            proof {
                assert forall|c: SessionClaims| token@ != #[trigger] token_of(c, secret@) by {
                    if token@ == token_of(c, secret@) {
                        lemma_canonical_structure(c, secret@, v@, d0 as int);
                        let m = token_mac(c, secret@);
                        assert(m.len() <= v@.len());
                        lemma_dec_of_canonical(m.len() as int);
                        assert(v@.subrange(0, d0 as int) == dec_of((m.len() as u64) as int));
                    }
                }
            }
            return Err(TokenError::Malformed);
        },
    };
    proof {
        assert forall|c: SessionClaims|
            token@ == #[trigger] token_of(c, secret@) implies klen as int == token_mac(
            c,
            secret@,
        ).len() && n as int == d0 + 1 + klen + 1 + payload_of(c).len() by {
            lemma_canonical_structure(c, secret@, v@, d0 as int);
            let m = token_mac(c, secret@);
            assert(v@.subrange(0, d0 as int) == dec_of(m.len() as int));
            assert(v@.subrange(0, d0 as int) == dec_of(klen as int));
            lemma_dec_of_injective(m.len() as int, klen as int);
        }
    }
    if klen > (n - d0 - 1) as u64 {
        return Err(TokenError::Malformed);
    }
    let k = klen as usize;
    if n - d0 - 1 == k {
        return Err(TokenError::Malformed);
    }
    if v[d0 + 1 + k] != '.' {
        return Err(TokenError::Malformed);
    }
    let ps = d0 + 2 + k;
    let rc = match parse_payload(&v, ps) {
        Some(x) => x,
        None => {
            proof {
                assert forall|c: SessionClaims| token@ != #[trigger] token_of(c, secret@) by {
                    if token@ == token_of(c, secret@) {
                        lemma_canonical_structure(c, secret@, v@, d0 as int);
                        assert(v@.subrange(ps as int, n as int) == payload_of(c));
                    }
                }
            }
            return Err(TokenError::Malformed);
        },
    };
    let mac_chars = sub_chars(&v, d0 + 1, d0 + 1 + k);
    let mac_s = chars_to_string(&mac_chars);
    let payload_chars = sub_chars(&v, ps, n);
    let payload_s = chars_to_string(&payload_chars);
    let ok = verify_sig(mac_s.as_str(), payload_s.as_str(), secret);
    if !ok {
        proof {
            assert forall|c: SessionClaims| token@ != #[trigger] token_of(c, secret@) by {
                if token@ == token_of(c, secret@) {
                    lemma_canonical_structure(c, secret@, v@, d0 as int);
                    assert(payload_s@ == payload_of(c));
                    assert(mac_s@ == token_mac(c, secret@));
                }
            }
        }
        return Err(TokenError::BadSignature);
    }
    proof {
        assert(mac_s@ == mac_of(payload_s@, secret@));
        assert(payload_s@ == v@.subrange(ps as int, n as int));
        assert(v@.subrange(ps as int, n as int) == payload_of(rc));
        assert(mac_s@ == token_mac(rc, secret@));
        assert(v@.subrange(0, d0 as int) == dec_of(klen as int));
        assert(token@ =~= token_of(rc, secret@)) by {
            assert(mac_chars@ == v@.subrange(d0 + 1, d0 + 1 + k as int));
            assert(token_mac(rc, secret@).len() == k as int);
            assert(v@[d0 as int] == '.');
            assert(v@[d0 + 1 + k as int] == '.');
        }
        assert forall|c: SessionClaims|
            token@ == #[trigger] token_of(c, secret@) implies claims_eq(rc, c)
            && c.expires_at == rc.expires_at by {
            lemma_token_injective(rc, c, secret@);
        }
    }
    if now >= rc.expires_at {
        return Err(TokenError::Expired);
    }
    Ok(rc)
}

} // verus!
