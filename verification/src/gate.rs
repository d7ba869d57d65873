use vstd::prelude::*;
use vstd::string::StrSliceExecFns;
use crate::claims::SessionClaims;
use crate::claims::claims_eq;
use crate::codec::token_of;
use crate::codec::verify_token;

verus! {

/// Why a request was rejected before its handler. Both surface as one
/// unauthorized response; no failure detail beyond presence is leaked.
#[derive(Clone, Copy, Debug, PartialEq, Eq, Structural)]
pub enum GateRejection {
    /// Neither the cookie nor a bearer header carried a token.
    MissingToken,
    /// A token was presented but did not check out, whatever the reason.
    InvalidToken,
}

/// The view of an optional string.
pub open spec fn opt_view(s: Option<&str>) -> Option<Seq<char>> {
    match s {
        Some(t) => Some(t@),
        None => None,
    }
}

/// The token a request presents: the cookie is the source of truth, a
/// `Bearer` authorization header the fallback.
pub open spec fn extracted(cookie: Option<Seq<char>>, bearer: Option<Seq<char>>) -> Option<
    Seq<char>,
> {
    match cookie {
        Some(c) => Some(c),
        None => match bearer {
            Some(h) => if h.len() >= 7 && h.subrange(0, 7) == seq![
                'B',
                'e',
                'a',
                'r',
                'e',
                'r',
                ' ',
            ] {
                Some(h.subrange(7, h.len() as int))
            } else {
                None
            },
            None => None,
        },
    }
}

/// Picks the token out of the request, cookie first, bearer header as
/// fallback.
pub fn extract_token(cookie: Option<&str>, bearer: Option<&str>) -> (r: Option<String>)
    ensures
        r is Some <==> extracted(opt_view(cookie), opt_view(bearer)) is Some,
        r matches Some(t) ==> extracted(opt_view(cookie), opt_view(bearer)) == Some(t@),
{
    match cookie {
        Some(c) => Some(c.to_owned()),
        None => match bearer {
            Some(h) => {
                let n = h.unicode_len();
                if n < 7 {
                    return None;
                }
                let is_bearer = h.get_char(0) == 'B' && h.get_char(1) == 'e' && h.get_char(2)
                    == 'a' && h.get_char(3) == 'r' && h.get_char(4) == 'e' && h.get_char(5) == 'r'
                    && h.get_char(6) == ' ';
                if !is_bearer {
                    proof {
                        if h@.subrange(0, 7) == seq!['B', 'e', 'a', 'r', 'e', 'r', ' '] {
                            assert(h@[0] == 'B' && h@[1] == 'e' && h@[2] == 'a' && h@[3] == 'r'
                                && h@[4] == 'e' && h@[5] == 'r' && h@[6] == ' ') by {
                                assert(forall|i: int| 0 <= i < 7 ==> h@.subrange(0, 7)[i]
                                    == h@[i]);
                            }
                        }
                    }
                    return None;
                }
                let rest = h.substring_char(7, n);
                proof {
                    assert(h@.subrange(0, 7) =~= seq!['B', 'e', 'a', 'r', 'e', 'r', ' ']);
                }
                Some(rest.to_owned())
            },
            None => None,
        },
    }
}

/// Gates one protected request: extracts the token and checks it under
/// the secret at instant `now`.
///
/// With no token anywhere the request is turned away as missing; any
/// presented token is accepted exactly when it was issued for claims
/// whose expiry lies after `now`, and those claims become the request's
/// identity. All token failures are flattened into one rejection.
pub fn auth_gate(cookie: Option<&str>, bearer: Option<&str>, secret: &[u8], now: u64) -> (r: Result<
    SessionClaims,
    GateRejection,
>)
    ensures
        (extracted(opt_view(cookie), opt_view(bearer)) is None) <==> (r == Err::<
            SessionClaims,
            GateRejection,
        >(GateRejection::MissingToken)),
        r matches Ok(c) ==> extracted(opt_view(cookie), opt_view(bearer)) == Some(
            token_of(c, secret@),
        ) && now < c.expires_at,
        forall|c: SessionClaims|
            extracted(opt_view(cookie), opt_view(bearer)) == Some(#[trigger] token_of(c, secret@))
                && now < c.expires_at ==> (r matches Ok(rc) && claims_eq(rc, c)),
        forall|c: SessionClaims|
            extracted(opt_view(cookie), opt_view(bearer)) == Some(#[trigger] token_of(c, secret@))
                && now >= c.expires_at ==> r == Err::<SessionClaims, GateRejection>(
                GateRejection::InvalidToken,
            ),
{
    match extract_token(cookie, bearer) {
        None => Err(GateRejection::MissingToken),
        Some(tok) => match verify_token(tok.as_str(), secret, now) {
            Ok(c) => Ok(c),
            Err(_) => Err(GateRejection::InvalidToken),
        },
    }
}

} // verus!
