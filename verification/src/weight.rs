//! Recognition of the decimal literals that `str::parse::<f32>` accepts. The
//! standard library documents them by a grammar (matched after lower-casing):
//! an optional sign, then `inf`, `infinity`, `nan`, or a number made of
//! digits with at most one `.` and at least one digit, optionally followed
//! by `e`, an optional sign and at least one digit.
use vstd::prelude::*;

use crate::text::ascii_lower;

verus! {

pub open spec fn is_digit(c: char) -> bool {
    '0' <= c <= '9'
}

pub open spec fn is_sign(c: char) -> bool {
    c == '+' || c == '-'
}

pub open spec fn digits_only(s: Seq<char>) -> bool {
    forall|i: int| 0 <= i < s.len() ==> is_digit(#[trigger] s[i])
}

/// `Digit+ | Digit+ '.' Digit* | Digit* '.' Digit+`
pub open spec fn is_mantissa(s: Seq<char>) -> bool {
    ||| s.len() > 0 && digits_only(s)
    ||| exists|k: int|
        0 <= k < s.len() && #[trigger] s[k] == '.' && s.len() >= 2 && digits_only(s.take(k))
            && digits_only(s.skip(k + 1))
}

/// `Sign? Digit+`
pub open spec fn is_exponent_digits(s: Seq<char>) -> bool {
    let t = if s.len() > 0 && is_sign(s[0]) {
        s.skip(1)
    } else {
        s
    };
    t.len() > 0 && digits_only(t)
}

pub open spec fn is_exp_char(c: char) -> bool {
    c == 'e' || c == 'E'
}

/// `Mantissa Exp?`
pub open spec fn is_number(s: Seq<char>) -> bool {
    ||| is_mantissa(s)
    ||| exists|k: int|
        0 <= k < s.len() && is_exp_char(#[trigger] s[k]) && is_mantissa(s.take(k))
            && is_exponent_digits(s.skip(k + 1))
}

pub open spec fn lower_equals(s: Seq<char>, word: Seq<char>) -> bool {
    s.len() == word.len() && forall|i: int| 0 <= i < s.len() ==> ascii_lower(#[trigger] s[i]) == word[i]
}

pub open spec fn is_special(s: Seq<char>) -> bool {
    ||| lower_equals(s, seq!['i', 'n', 'f'])
    ||| lower_equals(s, seq!['i', 'n', 'f', 'i', 'n', 'i', 't', 'y'])
    ||| lower_equals(s, seq!['n', 'a', 'n'])
}

/// Whether `str::parse::<f32>` succeeds on a string with these characters.
pub open spec fn is_float_literal(s: Seq<char>) -> bool {
    let t = if s.len() > 0 && is_sign(s[0]) {
        s.skip(1)
    } else {
        s
    };
    is_special(t) || is_number(t)
}

fn digits_only_range(v: &Vec<char>, a: usize, b: usize) -> (r: bool)
    requires
        a <= b <= v.len(),
    ensures
        r == digits_only(v@.subrange(a as int, b as int)),
{
    let mut i = a;
    while i < b
        invariant
            a <= i <= b <= v.len(),
            forall|k: int| a <= k < i ==> is_digit(v@[k]),
        decreases b - i,
    {
        if !('0' <= v[i] && v[i] <= '9') {
            assert(v@.subrange(a as int, b as int)[i - a] == v@[i as int]);
            return false;
        }
        i = i + 1;
    }
    assert forall|k: int| 0 <= k < b - a implies is_digit(#[trigger] v@.subrange(a as int, b as int)[k]) by {
        assert(v@.subrange(a as int, b as int)[k] == v@[a + k]);
    }
    true
}

/// First index in `[a, b)` holding `c`, or `b`.
fn find_char_in(v: &Vec<char>, a: usize, b: usize, c: char) -> (r: usize)
    requires
        a <= b <= v.len(),
    ensures
        a <= r <= b,
        forall|k: int| a <= k < r ==> v@[k] != c,
        r < b ==> v@[r as int] == c,
{
    let mut i = a;
    while i < b && v[i] != c
        invariant
            a <= i <= b <= v.len(),
            forall|k: int| a <= k < i ==> v@[k] != c,
        decreases b - i,
    {
        i = i + 1;
    }
    i
}

fn mantissa_range(v: &Vec<char>, a: usize, b: usize) -> (r: bool)
    requires
        a <= b <= v.len(),
    ensures
        r == is_mantissa(v@.subrange(a as int, b as int)),
{
    let ghost s = v@.subrange(a as int, b as int);
    let d = find_char_in(v, a, b, '.');
    if d == b {
        let all = digits_only_range(v, a, b);
        proof {
            if !all {
                assert forall|k: int| 0 <= k < s.len() && #[trigger] s[k] == '.' implies false by {
                    assert(s[k] == v@[a + k]);
                }
            }
        }
        all && a < b
    } else {
        let left = digits_only_range(v, a, d);
        let right = digits_only_range(v, d + 1, b);
        let k = d - a;
        proof {
            assert(s[k as int] == '.');
            assert(s.take(k as int) =~= v@.subrange(a as int, d as int));
            assert(s.skip(k + 1) =~= v@.subrange(d + 1, b as int));
            assert(!digits_only(s)) by {
                assert(!is_digit(s[k as int]));
            }
            if !(left && right && b - a >= 2) {
                assert forall|j: int|
                    0 <= j < s.len() && #[trigger] s[j] == '.' && s.len() >= 2 && digits_only(
                        s.take(j),
                    ) implies !digits_only(s.skip(j + 1)) by {
                    if j < k {
                        assert(s[j] == v@[a + j]);
                        assert(v@[a + j] != '.');
                    } else if j > k {
                        assert(s.take(j)[k as int] == '.');
                        assert(!is_digit(s.take(j)[k as int]));
                    } else {
                    }
                }
            }
        }
        left && right && b - a >= 2
    }
}

fn exponent_range(v: &Vec<char>, a: usize, b: usize) -> (r: bool)
    requires
        a <= b <= v.len(),
    ensures
        r == is_exponent_digits(v@.subrange(a as int, b as int)),
{
    let ghost s = v@.subrange(a as int, b as int);
    if a < b && (v[a] == '+' || v[a] == '-') {
        assert(s.skip(1) =~= v@.subrange(a + 1, b as int));
        a + 1 < b && digits_only_range(v, a + 1, b)
    } else {
        a < b && digits_only_range(v, a, b)
    }
}

fn number_range(v: &Vec<char>, a: usize, b: usize) -> (r: bool)
    requires
        a <= b <= v.len(),
    ensures
        r == is_number(v@.subrange(a as int, b as int)),
{
    let ghost s = v@.subrange(a as int, b as int);
    let e1 = find_char_in(v, a, b, 'e');
    let e2 = find_char_in(v, a, b, 'E');
    let e = if e1 < e2 { e1 } else { e2 };
    proof {
        assert forall|k: int| a <= k < e implies !is_exp_char(#[trigger] v@[k]) by {}
    }
    if e == b {
        let m = mantissa_range(v, a, b);
        proof {
            assert forall|k: int| 0 <= k < s.len() implies !is_exp_char(#[trigger] s[k]) by {
                assert(s[k] == v@[a + k]);
            }
        }
        m
    } else {
        let k = e - a;
        proof {
            assert(is_exp_char(s[k as int]));
            assert(s.take(k as int) =~= v@.subrange(a as int, e as int));
            assert(s.skip(k + 1) =~= v@.subrange(e + 1, b as int));
        }
        let m = mantissa_range(v, a, e);
        let x = exponent_range(v, e + 1, b);
        proof {
            // A mantissa holds only digits and dots, so the first exponent
            // marker is the only place the number can split.
            assert(!is_mantissa(s)) by {
                if s.len() > 0 && digits_only(s) {
                    assert(!is_digit(s[k as int]));
                }
                if exists|j: int|
                    0 <= j < s.len() && #[trigger] s[j] == '.' && s.len() >= 2 && digits_only(
                        s.take(j),
                    ) && digits_only(s.skip(j + 1)) {
                    let j = choose|j: int|
                        0 <= j < s.len() && #[trigger] s[j] == '.' && s.len() >= 2 && digits_only(
                            s.take(j),
                        ) && digits_only(s.skip(j + 1));
                    if k < j {
                        assert(s.take(j)[k as int] == s[k as int]);
                    } else {
                        assert(s.skip(j + 1)[k - j - 1] == s[k as int]);
                    }
                }
            }
            if !(m && x) {
                assert forall|j: int|
                    0 <= j < s.len() && is_exp_char(#[trigger] s[j]) && is_mantissa(
                        s.take(j),
                    ) implies !is_exponent_digits(s.skip(j + 1)) by {
                    if j < k {
                        assert(s[j] == v@[a + j]);
                    } else if j > k {
                        let t = s.take(j);
                        assert(t[k as int] == s[k as int]);
                        if t.len() > 0 && digits_only(t) {
                            assert(!is_digit(t[k as int]));
                        }
                        if exists|i: int|
                            0 <= i < t.len() && #[trigger] t[i] == '.' && t.len() >= 2
                                && digits_only(t.take(i)) && digits_only(t.skip(i + 1)) {
                            let i = choose|i: int|
                                0 <= i < t.len() && #[trigger] t[i] == '.' && t.len() >= 2
                                    && digits_only(t.take(i)) && digits_only(t.skip(i + 1));
                            if k < i {
                                assert(t.take(i)[k as int] == t[k as int]);
                            } else {
                                assert(t.skip(i + 1)[k - i - 1] == t[k as int]);
                            }
                        }
                    }
                }
            }
        }
        m && x
    }
}

fn lower_equals_range(v: &Vec<char>, a: usize, b: usize, word: &Vec<char>) -> (r: bool)
    requires
        a <= b <= v.len(),
    ensures
        r == lower_equals(v@.subrange(a as int, b as int), word@),
{
    if b - a != word.len() {
        return false;
    }
    let mut i: usize = 0;
    while i < word.len()
        invariant
            b - a == word.len(),
            a <= b <= v.len(),
            i <= word.len(),
            forall|k: int| 0 <= k < i ==> ascii_lower(v@[a + k]) == word@[k],
        decreases word.len() - i,
    {
        if crate::text::ascii_lower_char(v[a + i]) != word[i] {
            assert(v@.subrange(a as int, b as int)[i as int] == v@[a + i]);
            return false;
        }
        i = i + 1;
    }
    assert forall|k: int| 0 <= k < b - a implies ascii_lower(
        #[trigger] v@.subrange(a as int, b as int)[k],
    ) == word@[k] by {
        assert(v@.subrange(a as int, b as int)[k] == v@[a + k]);
    }
    true
}

/// Whether `str::parse::<f32>` accepts the characters `v[a..b]`.
pub fn is_float_literal_range(v: &Vec<char>, a: usize, b: usize) -> (r: bool)
    requires
        a <= b <= v.len(),
    ensures
        r == is_float_literal(v@.subrange(a as int, b as int)),
{
    let ghost s = v@.subrange(a as int, b as int);
    let start = if a < b && (v[a] == '+' || v[a] == '-') {
        a + 1
    } else {
        a
    };
    proof {
        if start == a + 1 {
            assert(s.skip(1) =~= v@.subrange(start as int, b as int));
        } else {
            assert(s =~= v@.subrange(start as int, b as int));
        }
    }
    let inf = vec!['i', 'n', 'f'];
    let infinity = vec!['i', 'n', 'f', 'i', 'n', 'i', 't', 'y'];
    let nan = vec!['n', 'a', 'n'];
    assert(inf@ =~= seq!['i', 'n', 'f']);
    assert(infinity@ =~= seq!['i', 'n', 'f', 'i', 'n', 'i', 't', 'y']);
    assert(nan@ =~= seq!['n', 'a', 'n']);
    lower_equals_range(v, start, b, &inf) || lower_equals_range(v, start, b, &infinity)
        || lower_equals_range(v, start, b, &nan) || number_range(v, start, b)
}

} // verus!
