use vstd::prelude::*;
use crate::claims::SessionClaims;
use crate::claims::claims_eq;
use crate::digits::dec_of;
use crate::digits::lemma_dec_of_canonical;
use crate::digits::lemma_dec_of_injective;
use crate::digits::is_digit;
use crate::digits::parse_dec;
use crate::digits::push_dec;
use crate::strutil::chars_to_string;
use crate::strutil::extend_chars;
use crate::strutil::str_to_chars;

verus! {

/// The serialized form of the claims: the three numeric fields in
/// canonical decimal, dot-separated, with the email as the unconstrained
/// tail.
pub open spec fn payload_of(c: SessionClaims) -> Seq<char> {
    dec_of(c.subject as int) + seq!['.'] + payload_tail1(c)
}

pub open spec fn payload_tail1(c: SessionClaims) -> Seq<char> {
    dec_of(c.issued_at as int) + seq!['.'] + payload_tail2(c)
}

pub open spec fn payload_tail2(c: SessionClaims) -> Seq<char> {
    dec_of(c.expires_at as int) + seq!['.'] + c.email@
}

/// How a dot-free prefix places the first dot of `a + "." + b`.
pub proof fn lemma_first_dot(a: Seq<char>, b: Seq<char>)
    requires
        forall|i: int| 0 <= i < a.len() ==> a[i] != '.',
    ensures
        (a + seq!['.'] + b).len() == a.len() + 1 + b.len(),
        (a + seq!['.'] + b)[a.len() as int] == '.',
        forall|i: int| 0 <= i < a.len() ==> (a + seq!['.'] + b)[i] == a[i] && (a + seq!['.']
            + b)[i] != '.',
        forall|i: int| 0 <= i < b.len() ==> (a + seq!['.'] + b)[a.len() + 1 + i] == b[i],
{
}

/// Splitting at a dot is unambiguous when both left parts are dot-free.
pub proof fn lemma_split_at_dot(a1: Seq<char>, b1: Seq<char>, a2: Seq<char>, b2: Seq<char>)
    requires
        a1 + seq!['.'] + b1 == a2 + seq!['.'] + b2,
        forall|i: int| 0 <= i < a1.len() ==> a1[i] != '.',
        forall|i: int| 0 <= i < a2.len() ==> a2[i] != '.',
    ensures
        a1 == a2,
        b1 == b2,
{
    let s = a1 + seq!['.'] + b1;
    lemma_first_dot(a1, b1);
    lemma_first_dot(a2, b2);
    if a1.len() < a2.len() {
        assert(s[a1.len() as int] == '.');
        assert(s[a1.len() as int] != '.');
    }
    if a2.len() < a1.len() {
        assert(s[a2.len() as int] == '.');
        assert(s[a2.len() as int] != '.');
    }
    assert(a1 =~= a2) by {
        assert(forall|i: int| 0 <= i < a1.len() ==> a1[i] == s[i] && a2[i] == s[i]);
    }
    assert(b1 =~= b2) by {
        assert(forall|i: int| 0 <= i < b1.len() ==> b1[i] == s[a1.len() + 1 + i] && b2[i]
            == s[a2.len() + 1 + i]);
    }
}

/// A decimal rendering is dot-free.
pub proof fn lemma_dec_dot_free(n: int)
    requires
        n >= 0,
    ensures
        forall|i: int| 0 <= i < dec_of(n).len() ==> dec_of(n)[i] != '.',
{
    lemma_dec_of_canonical(n);
    assert forall|i: int| 0 <= i < dec_of(n).len() implies dec_of(n)[i] != '.' by {
        assert(is_digit(dec_of(n)[i]));
    }
}

/// Claims with equal payloads agree on every field: serialization is
/// injective.
pub proof fn lemma_payload_injective(c1: SessionClaims, c2: SessionClaims)
    requires
        payload_of(c1) == payload_of(c2),
    ensures
        claims_eq(c1, c2),
{
    lemma_dec_dot_free(c1.subject as int);
    lemma_dec_dot_free(c2.subject as int);
    lemma_split_at_dot(
        dec_of(c1.subject as int),
        payload_tail1(c1),
        dec_of(c2.subject as int),
        payload_tail1(c2),
    );
    lemma_dec_of_injective(c1.subject as int, c2.subject as int);
    lemma_dec_dot_free(c1.issued_at as int);
    lemma_dec_dot_free(c2.issued_at as int);
    lemma_split_at_dot(
        dec_of(c1.issued_at as int),
        payload_tail2(c1),
        dec_of(c2.issued_at as int),
        payload_tail2(c2),
    );
    lemma_dec_of_injective(c1.issued_at as int, c2.issued_at as int);
    lemma_dec_dot_free(c1.expires_at as int);
    lemma_dec_dot_free(c2.expires_at as int);
    lemma_split_at_dot(
        dec_of(c1.expires_at as int),
        c1.email@,
        dec_of(c2.expires_at as int),
        c2.email@,
    );
    lemma_dec_of_injective(c1.expires_at as int, c2.expires_at as int);
}

/// Renders the claims into their serialized character form.
pub fn serialize_payload(c: &SessionClaims) -> (v: Vec<char>)
    ensures
        v@ == payload_of(*c),
{
    let mut v: Vec<char> = Vec::new();
    push_dec(&mut v, c.subject);
    v.push('.');
    push_dec(&mut v, c.issued_at);
    v.push('.');
    push_dec(&mut v, c.expires_at);
    v.push('.');
    let email_chars = str_to_chars(c.email.as_str());
    extend_chars(&mut v, &email_chars);
    proof {
        assert(v@ =~= payload_of(*c));
    }
    v
}

/// The first dot at or after `from`, if any.
pub fn find_dot(v: &Vec<char>, from: usize) -> (r: Option<usize>)
    requires
        from <= v@.len(),
    ensures
        r matches Some(i) ==> from <= i < v@.len() && v@[i as int] == '.' && (forall|j: int|
            from <= j < i ==> v@[j] != '.'),
        r is None ==> forall|j: int| from <= j < v@.len() ==> v@[j] != '.',
{
    let mut i: usize = from;
    while i < v.len()
        invariant
            from <= i <= v@.len(),
            forall|j: int| from <= j < i ==> v@[j] != '.',
        decreases v@.len() - i,
    {
        if v[i] == '.' {
            return Some(i);
        }
        i = i + 1;
    }
    None
}

/// Copies the characters `v[lo..hi]` out into a fresh vector.
pub fn sub_chars(v: &Vec<char>, lo: usize, hi: usize) -> (r: Vec<char>)
    requires
        lo <= hi <= v@.len(),
    ensures
        r@ == v@.subrange(lo as int, hi as int),
{
    let mut r: Vec<char> = Vec::new();
    let mut i: usize = lo;
    while i < hi
        invariant
            lo <= i <= hi <= v@.len(),
            r@ == v@.subrange(lo as int, i as int),
        decreases hi - i,
    {
        r.push(v[i]);
        i = i + 1;
        proof {
            assert(r@ =~= v@.subrange(lo as int, i as int));
        }
    }
    r
}

/// Reads `v[lo..]` back as claims. Succeeds exactly on the serialized
/// form of some claims, and then returns those claims.
#[verifier::rlimit(100)]
pub fn parse_payload(v: &Vec<char>, lo: usize) -> (r: Option<SessionClaims>)
    requires
        lo <= v@.len(),
    ensures
        r matches Some(c) ==> v@.subrange(lo as int, v@.len() as int) == payload_of(c),
        r is None ==> forall|c: SessionClaims| v@.subrange(lo as int, v@.len() as int)
            != #[trigger] payload_of(c),
{
    let ghost seg = v@.subrange(lo as int, v@.len() as int);
    let n = v.len();
    proof {
        lemma_payload_shape();
    }
    let d1 = match find_dot(v, lo) {
        Some(d) => d,
        None => {
            proof {
                assert forall|c: SessionClaims| seg != #[trigger] payload_of(c) by {
                    if seg == payload_of(c) {
                        lemma_dec_dot_free(c.subject as int);
                        lemma_first_dot(dec_of(c.subject as int), payload_tail1(c));
                        let k = dec_of(c.subject as int).len() as int;
                        assert(seg[k] == '.');
                        assert(v@[lo + k] == '.');
                    }
                }
            }
            return None;
        },
    };
    let subject = match parse_dec(v, lo, d1) {
        Some(x) => x,
        None => {
            proof {
                assert forall|c: SessionClaims| seg != #[trigger] payload_of(c) by {
                    if seg == payload_of(c) {
                        lemma_dec_dot_free(c.subject as int);
                        lemma_first_dot(dec_of(c.subject as int), payload_tail1(c));
                        let k = dec_of(c.subject as int).len() as int;
                        assert(seg[k] == '.');
                        assert(v@[lo + k] == '.');
                        assert(forall|j: int| 0 <= j < k ==> seg[j] != '.');
                        assert forall|j: int| lo <= j < lo + k implies v@[j] != '.' by {
                            assert(v@[j] == seg[j - lo]);
                        }
                        assert(d1 - lo == k);
                        assert forall|m: int|
                            0 <= m < k implies v@.subrange(lo as int, d1 as int)[m] == dec_of(
                            c.subject as int,
                        )[m] by {
                            assert(v@[lo + m] == seg[m]);
                        }
                        assert(v@.subrange(lo as int, d1 as int) =~= dec_of(c.subject as int));
                    }
                }
            }
            return None;
        },
    };
    let d2 = match find_dot(v, d1 + 1) {
        Some(d) => d,
        None => {
            proof {
                assert forall|c: SessionClaims| seg != #[trigger] payload_of(c) by {
                    if seg == payload_of(c) {
                        lemma_locate_second_dot(c, seg, lo as int, d1 as int, v@);
                    }
                }
            }
            return None;
        },
    };
    let issued_at = match parse_dec(v, d1 + 1, d2) {
        Some(x) => x,
        None => {
            proof {
                assert forall|c: SessionClaims| seg != #[trigger] payload_of(c) by {
                    if seg == payload_of(c) {
                        lemma_locate_second_dot(c, seg, lo as int, d1 as int, v@);
                        let k1 = dec_of(c.subject as int).len() as int;
                        let k2 = dec_of(c.issued_at as int).len() as int;
                        assert(d2 == d1 + 1 + k2);
                        lemma_dec_dot_free(c.subject as int);
                        lemma_dec_dot_free(c.issued_at as int);
                        lemma_first_dot(dec_of(c.subject as int), payload_tail1(c));
                        lemma_first_dot(dec_of(c.issued_at as int), payload_tail2(c));
                        assert forall|m: int|
                            0 <= m < k2 implies v@.subrange(d1 + 1, d2 as int)[m] == dec_of(
                            c.issued_at as int,
                        )[m] by {
                            assert(v@[d1 + 1 + m] == seg[k1 + 1 + m]);
                            assert(seg[k1 + 1 + m] == payload_tail1(c)[m]);
                            assert(payload_tail1(c)[m] == dec_of(c.issued_at as int)[m]);
                        }
                        assert(v@.subrange(d1 + 1, d2 as int) =~= dec_of(c.issued_at as int));
                    }
                }
            }
            return None;
        },
    };
    let d3 = match find_dot(v, d2 + 1) {
        Some(d) => d,
        None => {
            proof {
                assert forall|c: SessionClaims| seg != #[trigger] payload_of(c) by {
                    if seg == payload_of(c) {
                        lemma_locate_third_dot(c, seg, lo as int, d1 as int, d2 as int, v@);
                    }
                }
            }
            return None;
        },
    };
    let expires_at = match parse_dec(v, d2 + 1, d3) {
        Some(x) => x,
        None => {
            proof {
                assert forall|c: SessionClaims| seg != #[trigger] payload_of(c) by {
                    if seg == payload_of(c) {
                        lemma_locate_third_dot(c, seg, lo as int, d1 as int, d2 as int, v@);
                        let k1 = dec_of(c.subject as int).len() as int;
                        let k2 = dec_of(c.issued_at as int).len() as int;
                        let k3 = dec_of(c.expires_at as int).len() as int;
                        assert(d3 == d2 + 1 + k3);
                        lemma_dec_dot_free(c.subject as int);
                        lemma_dec_dot_free(c.issued_at as int);
                        lemma_dec_dot_free(c.expires_at as int);
                        lemma_first_dot(dec_of(c.subject as int), payload_tail1(c));
                        lemma_first_dot(dec_of(c.issued_at as int), payload_tail2(c));
                        lemma_first_dot(dec_of(c.expires_at as int), c.email@);
                        assert forall|m: int|
                            0 <= m < k3 implies v@.subrange(d2 + 1, d3 as int)[m] == dec_of(
                            c.expires_at as int,
                        )[m] by {
                            assert(v@[d2 + 1 + m] == seg[k1 + 1 + k2 + 1 + m]);
                            assert(seg[k1 + 1 + (k2 + 1 + m)] == payload_tail1(c)[k2 + 1 + m]);
                            assert(payload_tail1(c)[k2 + 1 + m] == payload_tail2(c)[m]);
                            assert(payload_tail2(c)[m] == dec_of(c.expires_at as int)[m]);
                        }
                        assert(v@.subrange(d2 + 1, d3 as int) =~= dec_of(c.expires_at as int));
                    }
                }
            }
            return None;
        },
    };
    let email_chars = sub_chars(v, d3 + 1, n);
    let email = chars_to_string(&email_chars);
    let c = SessionClaims { subject, email, issued_at, expires_at };
    proof {
        assert(v@.subrange(lo as int, d1 as int) == dec_of(subject as int));
        assert(v@.subrange(d1 + 1, d2 as int) == dec_of(issued_at as int));
        assert(v@.subrange(d2 + 1, d3 as int) == dec_of(expires_at as int));
        assert(c.email@ == v@.subrange(d3 + 1, n as int));
        assert(payload_tail2(c) =~= v@.subrange(d2 + 1, n as int));
        assert(payload_tail1(c) =~= v@.subrange(d1 + 1, n as int));
        assert(seg =~= payload_of(c));
    }
    Some(c)
}

/// Every serialized payload is long enough to carry its three dots.
proof fn lemma_payload_shape()
    ensures
        forall|c: SessionClaims| #[trigger] payload_of(c).len() == dec_of(c.subject as int).len()
            + 1 + dec_of(c.issued_at as int).len() + 1 + dec_of(c.expires_at as int).len() + 1
            + c.email@.len(),
{
}

/// Within a serialized payload laid down at offset `lo` of `w`, with the
/// first dot found at `d1`, the second dot lies right after the issue
/// field, with nothing dotted before it.
proof fn lemma_locate_second_dot(c: SessionClaims, seg: Seq<char>, lo: int, d1: int, w: Seq<char>)
    requires
        0 <= lo <= d1 < w.len(),
        seg == w.subrange(lo, w.len() as int),
        seg == payload_of(c),
        w[d1] == '.',
        forall|j: int| lo <= j < d1 ==> w[j] != '.',
    ensures
        d1 == lo + dec_of(c.subject as int).len(),
        w[d1 + 1 + dec_of(c.issued_at as int).len()] == '.',
        d1 + 1 + dec_of(c.issued_at as int).len() < w.len(),
        forall|j: int| d1 + 1 <= j < d1 + 1 + dec_of(c.issued_at as int).len() ==> w[j] != '.',
{
    let k1 = dec_of(c.subject as int).len() as int;
    let k2 = dec_of(c.issued_at as int).len() as int;
    lemma_dec_dot_free(c.subject as int);
    lemma_dec_dot_free(c.issued_at as int);
    lemma_first_dot(dec_of(c.subject as int), payload_tail1(c));
    assert(seg[k1] == '.');
    assert(forall|j: int| 0 <= j < k1 ==> seg[j] != '.');
    assert(d1 - lo == k1) by {
        if d1 - lo < k1 {
            assert(seg[d1 - lo] != '.');
            assert(seg[d1 - lo] == w[d1]);
        }
        if d1 - lo > k1 {
            assert(w[lo + k1] == seg[k1]);
        }
    }
    lemma_first_dot(dec_of(c.issued_at as int), payload_tail2(c));
    assert forall|j: int| 0 <= j <= k2 implies seg[k1 + 1 + j] == payload_tail1(c)[j] by {
        lemma_first_dot(dec_of(c.subject as int), payload_tail1(c));
    }
    assert(payload_tail1(c)[k2] == '.');
    assert(seg[k1 + 1 + k2] == '.');
    assert(w[d1 + 1 + k2] == seg[k1 + 1 + k2]);
    assert forall|j: int| d1 + 1 <= j < d1 + 1 + k2 implies w[j] != '.' by {
        assert(w[j] == seg[j - lo]);
        assert(seg[j - lo] == payload_tail1(c)[j - lo - k1 - 1]);
        assert(payload_tail1(c)[j - lo - k1 - 1] != '.');
    }
}

/// Where every character of a serialized payload comes from.
proof fn lemma_payload_positions(c: SessionClaims)
    ensures
        payload_of(c).len() == dec_of(c.subject as int).len() + 1 + dec_of(
            c.issued_at as int,
        ).len() + 1 + dec_of(c.expires_at as int).len() + 1 + c.email@.len(),
        forall|i: int| 0 <= i < dec_of(c.subject as int).len() ==> payload_of(c)[i] == dec_of(
            c.subject as int,
        )[i],
        payload_of(c)[dec_of(c.subject as int).len() as int] == '.',
        forall|i: int| 0 <= i < dec_of(c.issued_at as int).len() ==> payload_of(c)[dec_of(
            c.subject as int,
        ).len() + 1 + i] == dec_of(c.issued_at as int)[i],
        payload_of(c)[dec_of(c.subject as int).len() + 1 + dec_of(c.issued_at as int).len() as int]
            == '.',
        forall|i: int| 0 <= i < dec_of(c.expires_at as int).len() ==> payload_of(c)[dec_of(
            c.subject as int,
        ).len() + 1 + dec_of(c.issued_at as int).len() + 1 + i] == dec_of(c.expires_at as int)[i],
        payload_of(c)[dec_of(c.subject as int).len() + 1 + dec_of(c.issued_at as int).len() + 1
            + dec_of(c.expires_at as int).len() as int] == '.',
        forall|i: int| 0 <= i < c.email@.len() ==> payload_of(c)[dec_of(c.subject as int).len() + 1
            + dec_of(c.issued_at as int).len() + 1 + dec_of(c.expires_at as int).len() + 1 + i]
            == c.email@[i],
{
    let k1 = dec_of(c.subject as int).len() as int;
    let k2 = dec_of(c.issued_at as int).len() as int;
    let k3 = dec_of(c.expires_at as int).len() as int;
    let t1 = payload_tail1(c);
    let t2 = payload_tail2(c);
    assert(forall|j: int| 0 <= j < t1.len() ==> payload_of(c)[k1 + 1 + j] == t1[j]);
    assert(forall|j: int| 0 <= j < t2.len() ==> t1[k2 + 1 + j] == t2[j]);
    assert(forall|j: int| 0 <= j < c.email@.len() ==> t2[k3 + 1 + j] == c.email@[j]);
}

/// The same, one field further: the third dot closes the expiry field.
#[verifier::rlimit(100)]
proof fn lemma_locate_third_dot(
    c: SessionClaims,
    seg: Seq<char>,
    lo: int,
    d1: int,
    d2: int,
    w: Seq<char>,
)
    requires
        0 <= lo <= d1 < d2 < w.len(),
        seg == w.subrange(lo, w.len() as int),
        seg == payload_of(c),
        w[d1] == '.',
        forall|j: int| lo <= j < d1 ==> w[j] != '.',
        w[d2] == '.',
        forall|j: int| d1 + 1 <= j < d2 ==> w[j] != '.',
    ensures
        d1 == lo + dec_of(c.subject as int).len(),
        d2 == d1 + 1 + dec_of(c.issued_at as int).len(),
        w[d2 + 1 + dec_of(c.expires_at as int).len()] == '.',
        d2 + 1 + dec_of(c.expires_at as int).len() < w.len(),
        forall|j: int| d2 + 1 <= j < d2 + 1 + dec_of(c.expires_at as int).len() ==> w[j] != '.',
{
    lemma_locate_second_dot(c, seg, lo, d1, w);
    let k1 = dec_of(c.subject as int).len() as int;
    let k2 = dec_of(c.issued_at as int).len() as int;
    let k3 = dec_of(c.expires_at as int).len() as int;
    lemma_payload_positions(c);
    lemma_dec_dot_free(c.expires_at as int);
    assert(d2 - d1 - 1 == k2) by {
        if d2 - d1 - 1 < k2 {
            assert(w[d2] != '.');
        }
        if d2 - d1 - 1 > k2 {
            assert(w[d1 + 1 + k2] == '.');
        }
    }
    assert(w[d2 + 1 + k3] == seg[k1 + 1 + k2 + 1 + k3]);
    assert forall|j: int| d2 + 1 <= j < d2 + 1 + k3 implies w[j] != '.' by {
        let m = j - lo - k1 - 1 - k2 - 1;
        assert(w[j] == seg[k1 + 1 + k2 + 1 + m]);
        assert(seg[k1 + 1 + k2 + 1 + m] == dec_of(c.expires_at as int)[m]);
    }
}

} // verus!
