use vstd::prelude::*;

verus! {

/// The ten decimal digit characters.
pub open spec fn is_digit(c: char) -> bool {
    c == '0' || c == '1' || c == '2' || c == '3' || c == '4' || c == '5' || c == '6' || c == '7'
        || c == '8' || c == '9'
}

/// The character for one digit value.
pub open spec fn digit_char(d: int) -> char {
    if d == 0 {
        '0'
    } else if d == 1 {
        '1'
    } else if d == 2 {
        '2'
    } else if d == 3 {
        '3'
    } else if d == 4 {
        '4'
    } else if d == 5 {
        '5'
    } else if d == 6 {
        '6'
    } else if d == 7 {
        '7'
    } else if d == 8 {
        '8'
    } else {
        '9'
    }
}

/// The value of one digit character.
pub open spec fn digit_val(c: char) -> int {
    if c == '0' {
        0
    } else if c == '1' {
        1
    } else if c == '2' {
        2
    } else if c == '3' {
        3
    } else if c == '4' {
        4
    } else if c == '5' {
        5
    } else if c == '6' {
        6
    } else if c == '7' {
        7
    } else if c == '8' {
        8
    } else {
        9
    }
}

/// The canonical decimal rendering of a non-negative integer.
pub open spec fn dec_of(n: int) -> Seq<char>
    recommends
        n >= 0,
    decreases n,
{
    if n < 10 {
        seq![digit_char(n)]
    } else {
        dec_of(n / 10).push(digit_char(n % 10))
    }
}

/// The integer a digit string stands for.
pub open spec fn val_of(s: Seq<char>) -> int
    decreases s.len(),
{
    if s.len() == 0 {
        0
    } else {
        val_of(s.drop_last()) * 10 + digit_val(s.last())
    }
}

/// A canonical decimal string: non-empty, digits only, no leading zero.
pub open spec fn canonical_dec(s: Seq<char>) -> bool {
    &&& s.len() > 0
    &&& (forall|i: int| 0 <= i < s.len() ==> is_digit(#[trigger] s[i]))
    &&& (s[0] == '0' ==> s.len() == 1)
}

pub proof fn lemma_val_nonneg(s: Seq<char>)
    requires
        forall|i: int| 0 <= i < s.len() ==> is_digit(#[trigger] s[i]),
    ensures
        val_of(s) >= 0,
    decreases s.len(),
{
    if s.len() > 0 {
        lemma_val_nonneg(s.drop_last());
    }
}

pub proof fn lemma_val_pos(s: Seq<char>)
    requires
        canonical_dec(s),
        s[0] != '0',
    ensures
        val_of(s) >= 1,
    decreases s.len(),
{
    if s.len() == 1 {
        assert(s.drop_last().len() == 0);
        assert(val_of(s.drop_last()) == 0);
        assert(s.last() == s[0]);
        assert(val_of(s) == digit_val(s[0]));
    } else {
        let front = s.drop_last();
        assert(front[0] == s[0]);
        assert(forall|i: int| 0 <= i < front.len() ==> is_digit(#[trigger] front[i])) by {
            assert(forall|i: int| 0 <= i < front.len() ==> front[i] == s[i]);
        }
        lemma_val_pos(front);
    }
}

/// The decimal rendering of every non-negative integer is canonical and
/// stands for that integer.
pub proof fn lemma_dec_of_canonical(n: int)
    requires
        n >= 0,
    ensures
        canonical_dec(dec_of(n)),
        val_of(dec_of(n)) == n,
    decreases n,
{
    if n < 10 {
        let s = dec_of(n);
        assert(s == seq![digit_char(n)]);
        assert(s.drop_last() =~= Seq::<char>::empty());
        assert(val_of(s.drop_last()) == 0);
        assert(s.last() == digit_char(n));
        assert(val_of(s) == digit_val(digit_char(n)));
    } else {
        lemma_dec_of_canonical(n / 10);
        let front = dec_of(n / 10);
        let s = dec_of(n);
        assert(s == front.push(digit_char(n % 10)));
        assert(s.drop_last() =~= front);
        assert(forall|i: int| 0 <= i < s.len() ==> is_digit(#[trigger] s[i])) by {
            assert(forall|i: int| 0 <= i < front.len() ==> is_digit(#[trigger] front[i]));
            assert(s.last() == digit_char(n % 10));
        }
        if s[0] == '0' {
            assert(front.len() > 0);
            assert(s[0] == front[0]);
            assert(front[0] == '0');
            assert(front.len() == 1);
            assert(val_of(front) == n / 10);
            assert(digit_val(front[0]) == 0);
            assert(val_of(front) == val_of(front.drop_last()) * 10 + digit_val(front.last()));
            assert(front.last() == front[0]);
            assert(false);
        }
        assert(val_of(s) == val_of(front) * 10 + digit_val(digit_char(n % 10)));
        assert(digit_val(digit_char(n % 10)) == n % 10);
        assert(val_of(s) == n);
    }
}

/// Every canonical decimal string is the rendering of its value.
pub proof fn lemma_canonical_dec_of(s: Seq<char>)
    requires
        canonical_dec(s),
    ensures
        dec_of(val_of(s)) == s,
    decreases s.len(),
{
    if s.len() == 1 {
        assert(s.drop_last().len() == 0);
        assert(val_of(s.drop_last()) == 0);
        assert(s.last() == s[0]);
        assert(val_of(s) == digit_val(s[0]));
        assert(digit_char(digit_val(s[0])) == s[0]);
        assert(dec_of(val_of(s)) =~= s);
    } else {
        let front = s.drop_last();
        assert(front[0] == s[0]);
        assert(forall|i: int| 0 <= i < front.len() ==> is_digit(#[trigger] front[i])) by {
            assert(forall|i: int| 0 <= i < front.len() ==> front[i] == s[i]);
        }
        assert(canonical_dec(front));
        if front[0] == '0' {
            assert(s.len() == 1);
            assert(false);
        }
        lemma_val_pos(front);
        let d = digit_val(s.last());
        let v = val_of(s);
        assert(v == val_of(front) * 10 + d);
        assert(v >= 10);
        assert(v / 10 == val_of(front) && v % 10 == d) by (nonlinear_arith)
            requires
                v == val_of(front) * 10 + d,
                0 <= d < 10,
                val_of(front) >= 1,
        ;
        lemma_canonical_dec_of(front);
        assert(digit_char(digit_val(s.last())) == s.last());
        assert(dec_of(v) == dec_of(v / 10).push(digit_char(v % 10)));
        assert(dec_of(v) =~= s);
    }
}

/// Two distinct integers never share a decimal rendering.
pub proof fn lemma_dec_of_injective(a: int, b: int)
    requires
        a >= 0,
        b >= 0,
        dec_of(a) == dec_of(b),
    ensures
        a == b,
{
    lemma_dec_of_canonical(a);
    lemma_dec_of_canonical(b);
}

/// The value a digit string stands for never shrinks as it grows rightward.
pub proof fn lemma_val_prefix(s: Seq<char>, j: int)
    requires
        forall|i: int| 0 <= i < s.len() ==> is_digit(#[trigger] s[i]),
        0 <= j <= s.len(),
    ensures
        val_of(s) >= val_of(s.take(j)),
    decreases s.len() - j,
{
    if j < s.len() {
        let t = s.take(j + 1);
        assert(t.drop_last() =~= s.take(j));
        lemma_val_nonneg(s.take(j));
        assert(val_of(t) == val_of(s.take(j)) * 10 + digit_val(t.last()));
        assert(val_of(t) >= val_of(s.take(j)));
        lemma_val_prefix(s, j + 1);
        assert(s.take(s.len() as int) =~= s);
    } else {
        assert(s.take(j) =~= s);
    }
}

/// The character for one digit value.
pub fn digit_to_char(d: u64) -> (c: char)
    requires
        d < 10,
    ensures
        c == digit_char(d as int),
{
    match d {
        0 => '0',
        1 => '1',
        2 => '2',
        3 => '3',
        4 => '4',
        5 => '5',
        6 => '6',
        7 => '7',
        8 => '8',
        _ => '9',
    }
}

/// The value of a digit character, or `None` for any other character.
pub fn char_to_digit(c: char) -> (r: Option<u64>)
    ensures
        r is Some <==> is_digit(c),
        r matches Some(d) ==> d < 10 && d == digit_val(c),
{
    match c {
        '0' => Some(0),
        '1' => Some(1),
        '2' => Some(2),
        '3' => Some(3),
        '4' => Some(4),
        '5' => Some(5),
        '6' => Some(6),
        '7' => Some(7),
        '8' => Some(8),
        '9' => Some(9),
        _ => None,
    }
}

/// Appends the decimal rendering of `n` to `v`.
pub fn push_dec(v: &mut Vec<char>, n: u64)
    ensures
        final(v)@ == old(v)@ + dec_of(n as int),
    decreases n,
{
    if n < 10 {
        v.push(digit_to_char(n));
        proof {
            assert(v@ =~= old(v)@ + dec_of(n as int));
        }
    } else {
        push_dec(v, n / 10);
        v.push(digit_to_char(n % 10));
        proof {
            assert(v@ =~= old(v)@ + dec_of(n as int));
        }
    }
}

/// Reads the characters `v[lo..hi]` as a canonical decimal `u64`.
/// Returns `None` exactly when that range is not the rendering of any `u64`.
pub fn parse_dec(v: &Vec<char>, lo: usize, hi: usize) -> (r: Option<u64>)
    requires
        lo <= hi <= v@.len(),
    ensures
        r matches Some(n) ==> v@.subrange(lo as int, hi as int) == dec_of(n as int),
        r is None ==> forall|n: u64| v@.subrange(lo as int, hi as int) != dec_of(n as int),
{
    let ghost seg = v@.subrange(lo as int, hi as int);
    proof {
        assert forall|n: u64| seg == dec_of(n as int) implies canonical_dec(seg) && val_of(seg)
            == n as int by {
            lemma_dec_of_canonical(n as int);
        }
    }
    if lo == hi {
        return None;
    }
    if hi - lo > 1 {
        let c0 = v[lo];
        if c0 == '0' {
            proof {
                assert(seg[0] == '0');
                assert(seg.len() > 1);
            }
            return None;
        }
    }
    let mut value: u64 = 0;
    let mut i: usize = lo;
    while i < hi
        invariant
            lo <= i <= hi <= v@.len(),
            seg == v@.subrange(lo as int, hi as int),
            seg.len() > 0,
            seg.len() > 1 ==> seg[0] != '0',
            forall|j: int| 0 <= j < i - lo ==> is_digit(#[trigger] seg[j]),
            value as int == val_of(seg.take(i - lo)),
        decreases hi - i,
    {
        let c = v[i];
        proof {
            assert(seg[i - lo] == v@[i as int]);
        }
        match char_to_digit(c) {
            None => {
                proof {
                    assert(!is_digit(seg[i as int - lo as int]));
                    assert forall|n: u64| seg != dec_of(n as int) by {
                        if seg == dec_of(n as int) {
                            lemma_dec_of_canonical(n as int);
                        }
                    }
                }
                return None;
            },
            Some(d) => {
                proof {
                    assert(seg.take(i + 1 - lo).drop_last() =~= seg.take(i - lo));
                    assert(seg.take(i + 1 - lo).last() == seg[i - lo]);
                    assert(val_of(seg.take(i + 1 - lo)) == val_of(seg.take(i - lo)) * 10
                        + digit_val(seg[i - lo]));
                }
                if value > (u64::MAX - d) / 10 {
                    proof {
                        let big = val_of(seg.take(i + 1 - lo));
                        assert(big == value as int * 10 + d) by {
                            assert(digit_val(seg[i - lo]) == d);
                        }
                        assert(big > u64::MAX) by (nonlinear_arith)
                            requires
                                big == value as int * 10 + d,
                                value as int > ((u64::MAX - d) / 10) as int,
                                d < 10,
                        ;
                        assert forall|n: u64| seg != dec_of(n as int) by {
                            if seg == dec_of(n as int) {
                                lemma_dec_of_canonical(n as int);
                                lemma_val_prefix(seg, i + 1 - lo);
                                assert(val_of(seg) >= big);
                            }
                        }
                    }
                    return None;
                }
                value = value * 10 + d;
                i = i + 1;
            },
        }
    }
    proof {
        assert(seg.take(hi - lo) =~= seg);
        assert(canonical_dec(seg)) by {
            if seg.len() > 1 {
                assert(seg[0] != '0');
            }
        }
        lemma_canonical_dec_of(seg);
        assert(seg == dec_of(value as int));
    }
    Some(value)
}

} // verus!
