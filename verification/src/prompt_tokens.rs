//! Normalisation of prompt tokens. A token is one comma- or line-separated
//! fragment of a prompt; matching ignores the NovelAI weight syntax around it
//! (`1.2::x::`, `(x:1.1)`, `{x}`, `[x]`) and letter case.
use vstd::prelude::*;

use crate::text::{
    all_white, lemma_fields_separator_free, lemma_split_concat, lemma_split_fields_nonempty, lemma_split_separator_free,
    lemma_trim_end_shape, lemma_trim_start_shape, lemma_trim_white_prefix, lemma_trim_white_suffix, lemma_white_fields,
    lemma_white_trims_empty, is_separator, is_white_space, separator_free, trim_start,
};
use crate::text::{join, join_chars, append_chars, string_views, contains_chars, split_chars, split_fields, views, chars_eq, chars_of, lemma_trim_shape, lowercase, lowercase_chars, string_of, sub_chars, trim, trim_chars};
use crate::weight::{is_float_literal, is_float_literal_range};

verus! {

pub open spec fn ends_with_double_colon(t: Seq<char>) -> bool {
    t.len() >= 2 && t[t.len() - 2] == ':' && t[t.len() - 1] == ':'
}

/// The first index `i >= from` where `::` starts.
pub open spec fn find_double_colon(t: Seq<char>, from: int) -> Option<int>
    decreases t.len() - from,
{
    if from < 0 || from + 1 >= t.len() {
        None
    } else if t[from] == ':' && t[from + 1] == ':' {
        Some(from)
    } else {
        find_double_colon(t, from + 1)
    }
}

/// The last index `< end` that holds `:`.
pub open spec fn rfind_colon(t: Seq<char>, end: int) -> Option<int>
    decreases end,
{
    if end <= 0 || end > t.len() {
        None
    } else if t[end - 1] == ':' {
        Some(end - 1)
    } else {
        rfind_colon(t, end - 1)
    }
}

pub open spec fn is_bracket_pair(open: char, close: char) -> bool {
    (open == '(' && close == ')') || (open == '{' && close == '}') || (open == '[' && close == ']')
}

/// Drops a trailing `::` (the end of a numeric weight block).
pub open spec fn strip_weight_end(t: Seq<char>) -> Seq<char> {
    if ends_with_double_colon(t) {
        trim(t.take(t.len() - 2))
    } else {
        t
    }
}

/// Drops a leading `weight::` (or a bare leading `::`).
pub open spec fn strip_weight_start(t: Seq<char>) -> Seq<char> {
    match find_double_colon(t, 0) {
        Some(i) => {
            let prefix = trim(t.take(i));
            if prefix.len() == 0 || is_float_literal(prefix) {
                trim(t.skip(i + 2))
            } else {
                t
            }
        },
        None => t,
    }
}

/// Drops one pair of enclosing `()`, `{}` or `[]`.
pub open spec fn strip_brackets(t: Seq<char>) -> Seq<char> {
    if t.len() >= 2 && is_bracket_pair(t[0], t.last()) {
        trim(t.subrange(1, t.len() - 1))
    } else {
        t
    }
}

/// Drops a trailing `:weight`.
pub open spec fn strip_colon_weight(t: Seq<char>) -> Seq<char> {
    match rfind_colon(t, t.len() as int) {
        Some(i) => {
            let weight = trim(t.skip(i + 1));
            if weight.len() > 0 && is_float_literal(weight) {
                trim(t.take(i))
            } else {
                t
            }
        },
        None => t,
    }
}

/// One round of unwrapping weight syntax.
pub open spec fn strip_step(t: Seq<char>) -> Seq<char> {
    strip_colon_weight(strip_brackets(strip_weight_start(strip_weight_end(t))))
}

/// Rounds of unwrapping until a round changes nothing.
pub open spec fn strip_weights(t: Seq<char>) -> Seq<char>
    decreases t.len(),
{
    let n = strip_step(t);
    if n.len() < t.len() {
        strip_weights(n)
    } else {
        t
    }
}

/// The match key of a raw fragment in automation rules: weight syntax
/// unwrapped, then lower-cased; an empty text stays empty.
pub open spec fn rule_token(raw: Seq<char>) -> Seq<char> {
    let s = strip_weights(trim(raw));
    if s.len() == 0 {
        Seq::empty()
    } else {
        lowercase(s)
    }
}

pub open spec fn girl() -> Seq<char> {
    seq!['g', 'i', 'r', 'l']
}

pub open spec fn is_girl_alias(t: Seq<char>) -> bool {
    t == girl() || t == seq!['1', 'g', 'i', 'r', 'l'] || t == seq!['1', ' ', 'g', 'i', 'r', 'l']
}

/// The match key of a raw fragment in quick edits: as in rules, and
/// `girl`, `1girl` and `1 girl` all become `girl`.
pub open spec fn quick_token(raw: Seq<char>) -> Seq<char> {
    let t = rule_token(raw);
    if is_girl_alias(t) {
        girl()
    } else {
        t
    }
}

proof fn lemma_trim_len(s: Seq<char>)
    ensures
        trim(s).len() <= s.len(),
{
    lemma_trim_shape(s);
}

/// A round either changes nothing or makes the token strictly shorter.
pub proof fn lemma_strip_step_shrinks(t: Seq<char>)
    ensures
        strip_step(t) == t || strip_step(t).len() < t.len(),
{
    let a = strip_weight_end(t);
    if ends_with_double_colon(t) {
        lemma_trim_len(t.take(t.len() - 2));
    }
    let b = strip_weight_start(a);
    match find_double_colon(a, 0) {
        Some(i) => {
            lemma_find_double_colon_bounds(a, 0);
            lemma_trim_len(a.skip(i + 2));
        },
        None => {},
    }
    let c = strip_brackets(b);
    if b.len() >= 2 && is_bracket_pair(b[0], b.last()) {
        lemma_trim_len(b.subrange(1, b.len() - 1));
    }
    let d = strip_colon_weight(c);
    match rfind_colon(c, c.len() as int) {
        Some(i) => {
            lemma_rfind_colon_bounds(c, c.len() as int);
            lemma_trim_len(c.take(i));
        },
        None => {},
    }
}

proof fn lemma_strip_weights_fixed(t: Seq<char>)
    ensures
        strip_step(strip_weights(t)).len() >= strip_weights(t).len(),
    decreases t.len(),
{
    let n = strip_step(t);
    if n.len() < t.len() {
        lemma_strip_weights_fixed(n);
    }
}

/// Unwrapping weight syntax reaches a fixed point: unwrapping an unwrapped
/// token changes nothing.
pub proof fn lemma_strip_weights_idempotent(t: Seq<char>)
    ensures
        strip_weights(strip_weights(t)) == strip_weights(t),
{
    lemma_strip_weights_fixed(t);
}

pub proof fn lemma_find_double_colon_bounds(t: Seq<char>, from: int)
    ensures
        find_double_colon(t, from) matches Some(i) ==> from <= i && i + 1 < t.len() && t[i] == ':'
            && t[i + 1] == ':',
    decreases t.len() - from,
{
    if from < 0 || from + 1 >= t.len() {
    } else if t[from] == ':' && t[from + 1] == ':' {
    } else {
        lemma_find_double_colon_bounds(t, from + 1);
    }
}

pub proof fn lemma_rfind_colon_bounds(t: Seq<char>, end: int)
    ensures
        rfind_colon(t, end) matches Some(i) ==> 0 <= i < end && i < t.len() && t[i] == ':',
    decreases end,
{
    if end <= 0 || end > t.len() {
    } else if t[end - 1] == ':' {
    } else {
        lemma_rfind_colon_bounds(t, end - 1);
    }
}

fn find_double_colon_exec(t: &Vec<char>) -> (r: Option<usize>)
    ensures
        r matches Some(i) ==> find_double_colon(t@, 0) == Some(i as int),
        r is None ==> find_double_colon(t@, 0) is None,
{
    let mut i: usize = 0;
    while i < t.len() && i + 1 < t.len()
        invariant
            i <= t.len(),
            find_double_colon(t@, 0) == find_double_colon(t@, i as int),
        decreases t.len() - i,
    {
        if t[i] == ':' && t[i + 1] == ':' {
            return Some(i);
        }
        i = i + 1;
    }
    None
}

fn rfind_colon_exec(t: &Vec<char>) -> (r: Option<usize>)
    ensures
        r matches Some(i) ==> rfind_colon(t@, t@.len() as int) == Some(i as int),
        r is None ==> rfind_colon(t@, t@.len() as int) is None,
{
    let mut j: usize = t.len();
    while j > 0
        invariant
            j <= t.len(),
            rfind_colon(t@, t@.len() as int) == rfind_colon(t@, j as int),
        decreases j,
    {
        if t[j - 1] == ':' {
            return Some(j - 1);
        }
        j = j - 1;
    }
    None
}

fn trimmed_range(t: &Vec<char>, a: usize, b: usize) -> (r: Vec<char>)
    requires
        a <= b <= t.len(),
    ensures
        r@ == trim(t@.subrange(a as int, b as int)),
{
    let sub = sub_chars(t, a, b);
    trim_chars(&sub)
}

fn strip_step_exec(t: &Vec<char>) -> (r: Vec<char>)
    ensures
        r@ == strip_step(t@),
{
    let n = t.len();
    // trailing `::`
    let a = if n >= 2 && t[n - 2] == ':' && t[n - 1] == ':' {
        assert(t@.subrange(0, n - 2) =~= t@.take(n - 2));
        trimmed_range(t, 0, n - 2)
    } else {
        sub_chars(t, 0, n)
    };
    assert(t@.subrange(0, n as int) =~= t@);
    assert(a@ == strip_weight_end(t@));
    // leading `weight::`
    let b = match find_double_colon_exec(&a) {
        Some(i) => {
            proof {
                lemma_find_double_colon_bounds(a@, 0);
            }
            let prefix = trimmed_range(&a, 0, i);
            assert(a@.subrange(0, i as int) =~= a@.take(i as int));
            let pl = prefix.len();
            if pl == 0 || is_float_literal_range(&prefix, 0, pl) {
                assert(prefix@.subrange(0, pl as int) =~= prefix@);
                assert(a@.subrange(i + 2, a@.len() as int) =~= a@.skip(i + 2));
                trimmed_range(&a, i + 2, a.len())
            } else {
                assert(prefix@.subrange(0, pl as int) =~= prefix@);
                a
            }
        },
        None => a,
    };
    assert(b@ == strip_weight_start(a@));
    // enclosing brackets
    let bl = b.len();
    let c = if bl >= 2 && ((b[0] == '(' && b[bl - 1] == ')') || (b[0] == '{' && b[bl - 1] == '}')
        || (b[0] == '[' && b[bl - 1] == ']')) {
        trimmed_range(&b, 1, bl - 1)
    } else {
        b
    };
    assert(c@ == strip_brackets(b@));
    // trailing `:weight`
    let d = match rfind_colon_exec(&c) {
        Some(i) => {
            proof {
                lemma_rfind_colon_bounds(c@, c@.len() as int);
            }
            assert(i < c.len());
            let weight = trimmed_range(&c, i + 1, c.len());
            assert(c@.subrange(i + 1, c@.len() as int) =~= c@.skip(i + 1));
            let wl = weight.len();
            assert(weight@.subrange(0, wl as int) =~= weight@);
            if wl > 0 && is_float_literal_range(&weight, 0, wl) {
                assert(c@.subrange(0, i as int) =~= c@.take(i as int));
                trimmed_range(&c, 0, i)
            } else {
                c
            }
        },
        None => c,
    };
    d
}

/// Unwraps weight syntax from an already trimmed token until nothing changes.
fn strip_weights_exec(t: Vec<char>) -> (r: Vec<char>)
    ensures
        r@ == strip_weights(t@),
{
    let mut token = t;
    loop
        invariant
            strip_weights(token@) == strip_weights(t@),
        decreases token.len(),
    {
        let next = strip_step_exec(&token);
        proof {
            lemma_strip_step_shrinks(token@);
        }
        if chars_eq(&next, &token) {
            return token;
        }
        token = next;
    }
}

/// The rule match key of `raw` (see `rule_token`).
pub fn rule_token_chars(raw: &Vec<char>) -> (r: Vec<char>)
    ensures
        r@ == rule_token(raw@),
{
    let t = trim_chars(raw);
    let s = strip_weights_exec(t);
    if s.len() == 0 {
        s
    } else {
        lowercase_chars(&s)
    }
}

/// The quick-edit match key of `raw` (see `quick_token`).
pub fn quick_token_chars(raw: &Vec<char>) -> (r: Vec<char>)
    ensures
        r@ == quick_token(raw@),
{
    let t = rule_token_chars(raw);
    let n = t.len();
    let alias = (n == 4 && t[0] == 'g' && t[1] == 'i' && t[2] == 'r' && t[3] == 'l') || (n == 5
        && t[0] == '1' && t[1] == 'g' && t[2] == 'i' && t[3] == 'r' && t[4] == 'l') || (n == 6
        && t[0] == '1' && t[1] == ' ' && t[2] == 'g' && t[3] == 'i' && t[4] == 'r' && t[5] == 'l');
    proof {
        if alias {
            assert(is_girl_alias(t@)) by {
                if n == 4 {
                    assert(t@ =~= girl());
                } else if n == 5 {
                    assert(t@ =~= seq!['1', 'g', 'i', 'r', 'l']);
                } else {
                    assert(t@ =~= seq!['1', ' ', 'g', 'i', 'r', 'l']);
                }
            }
        } else {
            assert(!is_girl_alias(t@)) by {
                if t@ == girl() {
                    assert(t@[0] == 'g');
                }
                if t@ == seq!['1', 'g', 'i', 'r', 'l'] {
                    assert(t@[0] == '1');
                }
                if t@ == seq!['1', ' ', 'g', 'i', 'r', 'l'] {
                    assert(t@[1] == ' ');
                }
            }
        }
    }
    if alias {
        let g = vec!['g', 'i', 'r', 'l'];
        assert(g@ =~= girl());
        g
    } else {
        t
    }
}

/// The quick-edit match key of one prompt fragment, as text.
pub fn normalize_prompt_token(raw: &str) -> (r: String)
    ensures
        r@ == quick_token(raw@),
{
    let chars = chars_of(raw);
    let t = quick_token_chars(&chars);
    string_of(&t)
}

/// The automation-rule match key of one prompt fragment, as text.
pub fn normalize_rule_prompt_token(raw: &str) -> (r: String)
    ensures
        r@ == rule_token(raw@),
{
    let chars = chars_of(raw);
    let t = rule_token_chars(&chars);
    string_of(&t)
}

} // verus!

verus! {

/// The first occurrence of each non-empty element, in order.
pub open spec fn keep_first_nonempty(s: Seq<Seq<char>>) -> Seq<Seq<char>>
    decreases s.len(),
{
    if s.len() == 0 {
        Seq::empty()
    } else {
        let r = keep_first_nonempty(s.drop_last());
        let x = s.last();
        if x.len() == 0 || r.contains(x) {
            r
        } else {
            r.push(x)
        }
    }
}

pub proof fn lemma_keep_first_nonempty_facts(s: Seq<Seq<char>>)
    ensures
        keep_first_nonempty(s).no_duplicates(),
        forall|x: Seq<char>| #[trigger] keep_first_nonempty(s).contains(x) <==> (x.len() > 0 && s.contains(x)),
    decreases s.len(),
{
    if s.len() > 0 {
        lemma_keep_first_nonempty_facts(s.drop_last());
        let r = keep_first_nonempty(s.drop_last());
        let d = s.drop_last();
        let y = s.last();
        assert(s =~= d.push(y));
        assert forall|x: Seq<char>| #[trigger] keep_first_nonempty(s).contains(x) <==> (x.len() > 0 && s.contains(x)) by {
            assert(d.push(y).contains(x) <==> (d.contains(x) || x == y)) by {
                if d.push(y).contains(x) && x != y {
                    let i = choose|i: int| 0 <= i < d.push(y).len() && d.push(y)[i] == x;
                    assert(d[i] == x);
                }
                if d.contains(x) {
                    let i = choose|i: int| 0 <= i < d.len() && d[i] == x;
                    assert(d.push(y)[i] == x);
                }
                if x == y {
                    assert(d.push(y)[d.len() as int] == x);
                }
            }
            assert(r.push(y).contains(x) <==> (r.contains(x) || x == y)) by {
                if r.push(y).contains(x) && x != y {
                    let i = choose|i: int| 0 <= i < r.push(y).len() && r.push(y)[i] == x;
                    assert(r[i] == x);
                }
                if r.contains(x) {
                    let i = choose|i: int| 0 <= i < r.len() && r[i] == x;
                    assert(r.push(y)[i] == x);
                }
                if x == y {
                    assert(r.push(y)[r.len() as int] == x);
                }
            }
        }
    }
}

/// Appends `x` to `out` unless it is empty or already there.
pub(crate) fn push_new_nonempty(out: &mut Vec<Vec<char>>, x: Vec<char>)
    ensures
        views(final(out)@) == (if x@.len() == 0 || views(old(out)@).contains(x@) {
            views(old(out)@)
        } else {
            views(old(out)@).push(x@)
        }),
{
    if x.len() > 0 && !contains_chars(out, &x) {
        let ghost before = views(out@);
        let ghost xv = x@;
        out.push(x);
        assert(views(out@) =~= before.push(xv));
    }
}

/// The fields of `v` split on separators (with the full-width comma), each
/// trimmed.
pub open spec fn trimmed_fields(v: Seq<char>) -> Seq<Seq<char>> {
    split_fields(v, true).map_values(|f: Seq<char>| trim(f))
}

/// The trimmed fields of all `values`, in order.
pub open spec fn all_trimmed_fields(values: Seq<Seq<char>>) -> Seq<Seq<char>>
    decreases values.len(),
{
    if values.len() == 0 {
        Seq::empty()
    } else {
        all_trimmed_fields(values.drop_last()) + trimmed_fields(values.last())
    }
}

/// List inputs as rules and filters read them: every value split on commas
/// (also full-width) and line breaks, trimmed, blanks dropped, first
/// occurrences kept.
pub open spec fn normalized_list(values: Seq<Seq<char>>) -> Seq<Seq<char>> {
    keep_first_nonempty(all_trimmed_fields(values))
}

proof fn lemma_keep_first_push(s: Seq<Seq<char>>, x: Seq<char>)
    ensures
        keep_first_nonempty(s.push(x)) == (if x.len() == 0 || keep_first_nonempty(s).contains(x) {
            keep_first_nonempty(s)
        } else {
            keep_first_nonempty(s).push(x)
        }),
{
    assert(s.push(x).drop_last() =~= s);
}

/// Splits a list input (see `normalized_list`).
pub fn normalized_strings(values: &Vec<String>) -> (r: Vec<String>)
    ensures
        r@.map_values(|s: String| s@) == normalized_list(values@.map_values(|s: String| s@)),
{
    let ghost vs = values@.map_values(|s: String| s@);
    let mut out: Vec<Vec<char>> = Vec::new();
    let mut i: usize = 0;
    assert(vs.take(0) =~= Seq::<Seq<char>>::empty());
    while i < values.len()
        invariant
            i <= values.len(),
            vs == values@.map_values(|s: String| s@),
            views(out@) == keep_first_nonempty(all_trimmed_fields(vs.take(i as int))),
        decreases values.len() - i,
    {
        let v = chars_of(values[i].as_str());
        let fields = split_chars(&v, true);
        let ghost base = all_trimmed_fields(vs.take(i as int));
        assert(vs.take(i + 1).drop_last() =~= vs.take(i as int));
        assert(vs.take(i + 1).last() == v@);
        let mut j: usize = 0;
        assert(base + trimmed_fields(v@).take(0) =~= base);
        while j < fields.len()
            invariant
                j <= fields.len(),
                views(fields@) == split_fields(v@, true),
                views(out@) == keep_first_nonempty(base + trimmed_fields(v@).take(j as int)),
            decreases fields.len() - j,
        {
            let t = trim_chars(&fields[j]);
            assert(trimmed_fields(v@)[j as int] == t@);
            assert(base + trimmed_fields(v@).take(j + 1) =~= (base + trimmed_fields(v@).take(j as int)).push(t@));
            proof {
                lemma_keep_first_push(base + trimmed_fields(v@).take(j as int), t@);
            }
            push_new_nonempty(&mut out, t);
            j = j + 1;
        }
        assert(trimmed_fields(v@).take(j as int) =~= trimmed_fields(v@));
        i = i + 1;
    }
    assert(vs.take(i as int) =~= vs);
    strings_of(&out)
}

/// The strings with these characters.
pub fn strings_of(v: &Vec<Vec<char>>) -> (r: Vec<String>)
    ensures
        r@.map_values(|s: String| s@) == views(v@),
{
    let mut r: Vec<String> = Vec::new();
    let mut i: usize = 0;
    while i < v.len()
        invariant
            i <= v.len(),
            r@.map_values(|s: String| s@) == views(v@).take(i as int),
        decreases v.len() - i,
    {
        let ghost before = r@.map_values(|s: String| s@);
        r.push(string_of(&v[i]));
        assert(r@.map_values(|s: String| s@) =~= before.push(v@[i as int]@));
        i = i + 1;
        assert(views(v@).take(i as int) =~= views(v@).take(i - 1).push(v@[i - 1]@));
    }
    assert(views(v@).take(i as int) =~= views(v@));
    r
}

} // verus!

verus! {

/// The distinct rule match keys of the fields of `v`, in order of first
/// occurrence.
pub open spec fn rule_tokens(v: Seq<char>) -> Seq<Seq<char>> {
    keep_first_nonempty(split_fields(v, true).map_values(|f: Seq<char>| rule_token(f)))
}

/// The rule match keys of the fields of `v`, each once, in order.
pub fn parse_prompt_tokens(value: &str) -> (r: Vec<String>)
    ensures
        r@.map_values(|s: String| s@) == rule_tokens(value@),
{
    let v = chars_of(value);
    let t = rule_token_list(&v);
    strings_of(&t)
}

/// The rule match keys of the fields of `v`, each once, in order.
pub fn rule_token_list(v: &Vec<char>) -> (r: Vec<Vec<char>>)
    ensures
        views(r@) == rule_tokens(v@),
{
    let fields = split_chars(v, true);
    let ghost mapped = split_fields(v@, true).map_values(|f: Seq<char>| rule_token(f));
    let mut out: Vec<Vec<char>> = Vec::new();
    let mut j: usize = 0;
    assert(mapped.take(0) =~= Seq::<Seq<char>>::empty());
    while j < fields.len()
        invariant
            j <= fields.len(),
            views(fields@) == split_fields(v@, true),
            mapped == split_fields(v@, true).map_values(|f: Seq<char>| rule_token(f)),
            views(out@) == keep_first_nonempty(mapped.take(j as int)),
        decreases fields.len() - j,
    {
        let t = rule_token_chars(&fields[j]);
        assert(mapped[j as int] == t@);
        assert(mapped.take(j + 1) =~= mapped.take(j as int).push(t@));
        proof {
            lemma_keep_first_push(mapped.take(j as int), t@);
        }
        push_new_nonempty(&mut out, t);
        j = j + 1;
    }
    assert(mapped.take(j as int) =~= mapped);
    out
}

/// The distinct non-empty rule match keys of the fields of `value`.
pub fn prompt_token_set(value: &str) -> (r: Vec<String>)
    ensures
        r@.map_values(|s: String| s@) == rule_tokens(value@),
        r@.map_values(|s: String| s@).no_duplicates(),
        forall|t: Seq<char>| #[trigger] string_views(r@).contains(t) <==> (t.len() > 0
            && split_fields(value@, true).map_values(|f: Seq<char>| rule_token(f)).contains(t)),
{
    proof {
        lemma_keep_first_nonempty_facts(split_fields(value@, true).map_values(|f: Seq<char>| rule_token(f)));
    }
    parse_prompt_tokens(value)
}

pub open spec fn artist_prefix() -> Seq<char> {
    seq!['a', 'r', 't', 'i', 's', 't', ':']
}

/// The artist key of a fragment: its rule match key without a leading
/// `artist:`, trimmed.
pub open spec fn artist_key(v: Seq<char>) -> Seq<char> {
    let n = rule_token(v);
    if n.len() >= 7 && n.take(7) == artist_prefix() {
        trim(n.skip(7))
    } else {
        trim(n)
    }
}

/// The artist key of a prompt field (see `artist_key`).
pub fn artist_key_chars(v: &Vec<char>) -> (r: Vec<char>)
    ensures
        r@ == artist_key(v@),
{
    let n = rule_token_chars(v);
    let has = n.len() >= 7 && n[0] == 'a' && n[1] == 'r' && n[2] == 't' && n[3] == 'i' && n[4] == 's'
        && n[5] == 't' && n[6] == ':';
    proof {
        if n@.len() >= 7 {
            if has {
                assert(n@.take(7) =~= artist_prefix());
            } else {
                assert(n@.take(7) != artist_prefix()) by {
                    if n@.take(7) == artist_prefix() {
                        assert(n@[0] == n@.take(7)[0]);
                        assert(n@[1] == n@.take(7)[1]);
                        assert(n@[2] == n@.take(7)[2]);
                        assert(n@[3] == n@.take(7)[3]);
                        assert(n@[4] == n@.take(7)[4]);
                        assert(n@[5] == n@.take(7)[5]);
                        assert(n@[6] == n@.take(7)[6]);
                    }
                }
            }
        }
    }
    if has {
        let rest = sub_chars(&n, 7, n.len());
        assert(rest@ =~= n@.skip(7));
        trim_chars(&rest)
    } else {
        trim_chars(&n)
    }
}

/// The artist key of one artist name (see `artist_key`).
pub fn normalize_artist(value: &str) -> (r: String)
    ensures
        r@ == artist_key(value@),
{
    let v = chars_of(value);
    let k = artist_key_chars(&v);
    string_of(&k)
}

/// The distinct non-empty artist keys of the fields of `v`.
pub open spec fn artist_keys(v: Seq<char>) -> Seq<Seq<char>> {
    keep_first_nonempty(split_fields(v, true).map_values(|f: Seq<char>| artist_key(f)))
}

/// The distinct non-empty artist keys of the fields of `v`, first occurrence first.
pub fn artist_key_list(v: &Vec<char>) -> (r: Vec<Vec<char>>)
    ensures
        views(r@) == artist_keys(v@),
{
    let fields = split_chars(v, true);
    let ghost mapped = split_fields(v@, true).map_values(|f: Seq<char>| artist_key(f));
    let mut out: Vec<Vec<char>> = Vec::new();
    let mut j: usize = 0;
    assert(mapped.take(0) =~= Seq::<Seq<char>>::empty());
    while j < fields.len()
        invariant
            j <= fields.len(),
            views(fields@) == split_fields(v@, true),
            mapped == split_fields(v@, true).map_values(|f: Seq<char>| artist_key(f)),
            views(out@) == keep_first_nonempty(mapped.take(j as int)),
        decreases fields.len() - j,
    {
        let t = artist_key_chars(&fields[j]);
        assert(mapped[j as int] == t@);
        assert(mapped.take(j + 1) =~= mapped.take(j as int).push(t@));
        proof {
            lemma_keep_first_push(mapped.take(j as int), t@);
        }
        push_new_nonempty(&mut out, t);
        j = j + 1;
    }
    assert(mapped.take(j as int) =~= mapped);
    out
}

/// The distinct artist keys of an artist list (absent counts as empty).
pub fn artist_set(value: Option<&str>) -> (r: Vec<String>)
    ensures
        r@.map_values(|s: String| s@) == artist_keys(match value {
            Some(v) => v@,
            None => Seq::<char>::empty(),
        }),
{
    let v = match value {
        Some(s) => chars_of(s),
        None => Vec::new(),
    };
    let k = artist_key_list(&v);
    strings_of(&k)
}

/// `value` unless it is blank.
pub fn nonempty(value: String) -> (r: Option<String>)
    ensures
        trim(value@).len() > 0 ==> r == Some(value),
        trim(value@).len() == 0 ==> r is None,
{
    let v = chars_of(value.as_str());
    let t = trim_chars(&v);
    if t.len() > 0 {
        Some(value)
    } else {
        None
    }
}

} // verus!

verus! {

/// The non-empty elements of `s`, in order.
pub open spec fn nonempty_only(s: Seq<Seq<char>>) -> Seq<Seq<char>>
    decreases s.len(),
{
    if s.len() == 0 {
        Seq::empty()
    } else {
        let r = nonempty_only(s.drop_last());
        if s.last().len() > 0 {
            r.push(s.last())
        } else {
            r
        }
    }
}

/// The additions whose rule match key is not yet available, each making its
/// key available for the later ones; with the final available keys.
pub open spec fn missing_additions(adds: Seq<Seq<char>>, avail: Set<Seq<char>>) -> (Seq<Seq<char>>, Set<Seq<char>>)
    decreases adds.len(),
{
    if adds.len() == 0 {
        (Seq::empty(), avail)
    } else {
        let (m, s) = missing_additions(adds.drop_last(), avail);
        let a = adds.last();
        let t = rule_token(a);
        if s.contains(t) {
            (m, s)
        } else {
            (m.push(a), s.insert(t))
        }
    }
}

pub open spec fn comma_sep() -> Seq<char> {
    seq![',', ' ']
}

/// A prompt after appending the comma-separated `value`: the additions
/// whose match key the prompt (or an earlier addition) lacks are joined with
/// `, ` and appended to the trimmed prompt after `, `; a blank result is
/// absent. When nothing is missing the prompt is unchanged.
pub open spec fn appended_prompt(current: Option<Seq<char>>, value: Seq<char>) -> Option<Seq<char>> {
    let adds = nonempty_only(trimmed_fields(value));
    if adds.len() == 0 {
        current
    } else {
        let cur = match current {
            Some(c) => c,
            None => Seq::<char>::empty(),
        };
        let missing = missing_additions(adds, rule_tokens(cur).to_set()).0;
        if missing.len() == 0 {
            current
        } else {
            let addition = join(missing, comma_sep());
            let text = if current is Some && trim(cur).len() > 0 {
                trim(cur) + comma_sep() + addition
            } else {
                addition
            };
            if trim(text).len() > 0 {
                Some(text)
            } else {
                None
            }
        }
    }
}

pub open spec fn opt_view(s: Option<&str>) -> Option<Seq<char>> {
    match s {
        Some(x) => Some(x@),
        None => None,
    }
}

pub open spec fn opt_string_view(s: Option<String>) -> Option<Seq<char>> {
    match s {
        Some(x) => Some(x@),
        None => None,
    }
}

fn nonempty_trimmed_fields(v: &Vec<char>) -> (r: Vec<Vec<char>>)
    ensures
        views(r@) == nonempty_only(trimmed_fields(v@)),
{
    let fields = split_chars(v, true);
    let ghost tf = trimmed_fields(v@);
    let mut out: Vec<Vec<char>> = Vec::new();
    let mut j: usize = 0;
    assert(tf.take(0) =~= Seq::<Seq<char>>::empty());
    while j < fields.len()
        invariant
            j <= fields.len(),
            views(fields@) == split_fields(v@, true),
            tf == trimmed_fields(v@),
            views(out@) == nonempty_only(tf.take(j as int)),
        decreases fields.len() - j,
    {
        let t = trim_chars(&fields[j]);
        assert(tf[j as int] == t@);
        assert(tf.take(j + 1).drop_last() =~= tf.take(j as int));
        if t.len() > 0 {
            let ghost before = views(out@);
            let ghost tv = t@;
            out.push(t);
            assert(views(out@) =~= before.push(tv));
        }
        j = j + 1;
    }
    assert(tf.take(j as int) =~= tf);
    out
}

fn opt_str_chars(s: Option<&str>) -> (r: Vec<char>)
    ensures
        r@ == (match s {
            Some(x) => x@,
            None => Seq::<char>::empty(),
        }),
{
    match s {
        Some(x) => chars_of(x),
        None => Vec::new(),
    }
}

/// Appends the comma-separated tags of `value` that `current` lacks (see
/// `appended_prompt`).
pub fn append_prompt(current: Option<&str>, value: &str) -> (r: Option<String>)
    ensures
        opt_string_view(r) == appended_prompt(opt_view(current), value@),
{
    let v = chars_of(value);
    let adds = nonempty_trimmed_fields(&v);
    let cur = opt_str_chars(current);
    let unchanged = match current {
        Some(c) => Some(string_of(&cur)),
        None => None,
    };
    if adds.len() == 0 {
        return unchanged;
    }
    let mut avail = rule_token_list(&cur);
    proof {
        lemma_keep_first_nonempty_facts(split_fields(cur@, true).map_values(|f: Seq<char>| rule_token(f)));
    }
    let ghost avail0 = rule_tokens(cur@).to_set();
    let mut missing: Vec<Vec<char>> = Vec::new();
    let mut j: usize = 0;
    assert(views(adds@).take(0) =~= Seq::<Seq<char>>::empty());
    while j < adds.len()
        invariant
            j <= adds.len(),
            ({
                let (m, s) = missing_additions(views(adds@).take(j as int), avail0);
                &&& views(missing@) == m
                &&& views(avail@).to_set() == s
            }),
        decreases adds.len() - j,
    {
        let t = rule_token_chars(&adds[j]);
        assert(views(adds@).take(j + 1).drop_last() =~= views(adds@).take(j as int));
        assert(views(adds@).take(j + 1).last() == adds@[j as int]@);
        if !contains_chars(&avail, &t) {
            let ghost before = views(avail@);
            let ghost tv = t@;
            avail.push(t);
            proof {
                assert(views(avail@) =~= before.push(tv));
                before.lemma_push_to_set_commute(tv);
            }
            let ghost mb = views(missing@);
            let a = copy_vec(&adds[j]);
            let ghost av = a@;
            missing.push(a);
            assert(views(missing@) =~= mb.push(av));
        }
        j = j + 1;
    }
    assert(views(adds@).take(j as int) =~= views(adds@));
    if missing.len() == 0 {
        return unchanged;
    }
    let sep = vec![',', ' '];
    assert(sep@ =~= comma_sep());
    let addition = join_chars(&missing, &sep);
    let tc = trim_chars(&cur);
    let text = if current.is_some() && tc.len() > 0 {
        let mut t = tc;
        append_chars(&mut t, &sep);
        append_chars(&mut t, &addition);
        t
    } else {
        addition
    };
    let tt = trim_chars(&text);
    if tt.len() > 0 {
        Some(string_of(&text))
    } else {
        None
    }
}

fn copy_vec(v: &Vec<char>) -> (r: Vec<char>)
    ensures
        r@ == v@,
{
    let r = sub_chars(v, 0, v.len());
    assert(v@.subrange(0, v@.len() as int) =~= v@);
    r
}

/// The non-empty fields whose rule match key is not among `targets`.
pub open spec fn retained_fields(fields: Seq<Seq<char>>, targets: Set<Seq<char>>) -> Seq<Seq<char>>
    decreases fields.len(),
{
    if fields.len() == 0 {
        Seq::empty()
    } else {
        let r = retained_fields(fields.drop_last(), targets);
        let f = fields.last();
        if f.len() > 0 && !targets.contains(rule_token(f)) {
            r.push(f)
        } else {
            r
        }
    }
}

/// A prompt after deleting the tags of `targets`: the remaining trimmed
/// fields joined with `, `; absent if the prompt was absent or the result
/// is blank.
pub open spec fn deleted_prompt(current: Option<Seq<char>>, targets: Seq<char>) -> Option<Seq<char>> {
    match current {
        None => None,
        Some(c) => {
            let text = join(retained_fields(trimmed_fields(c), rule_tokens(targets).to_set()), comma_sep());
            if trim(text).len() > 0 {
                Some(text)
            } else {
                None
            }
        },
    }
}

/// Removes from `current` every field whose match key is among the tags of
/// `targets` (see `deleted_prompt`).
pub fn delete_prompt_tags(current: Option<&str>, targets: &str) -> (r: Option<String>)
    ensures
        opt_string_view(r) == deleted_prompt(opt_view(current), targets@),
{
    let tv = chars_of(targets);
    let tset = rule_token_list(&tv);
    let c = match current {
        Some(c) => chars_of(c),
        None => return None,
    };
    let fields = split_chars(&c, true);
    let ghost tf = trimmed_fields(c@);
    let ghost ts = rule_tokens(tv@).to_set();
    let mut kept: Vec<Vec<char>> = Vec::new();
    let mut j: usize = 0;
    assert(tf.take(0) =~= Seq::<Seq<char>>::empty());
    while j < fields.len()
        invariant
            j <= fields.len(),
            views(fields@) == split_fields(c@, true),
            tf == trimmed_fields(c@),
            ts == views(tset@).to_set(),
            views(kept@) == retained_fields(tf.take(j as int), ts),
        decreases fields.len() - j,
    {
        let f = trim_chars(&fields[j]);
        assert(tf[j as int] == f@);
        assert(tf.take(j + 1).drop_last() =~= tf.take(j as int));
        if f.len() > 0 {
            let key = rule_token_chars(&f);
            if !contains_chars(&tset, &key) {
                let ghost before = views(kept@);
                let ghost fv = f@;
                kept.push(f);
                assert(views(kept@) =~= before.push(fv));
            }
        }
        j = j + 1;
    }
    assert(tf.take(j as int) =~= tf);
    let sep = vec![',', ' '];
    assert(sep@ =~= comma_sep());
    let text = join_chars(&kept, &sep);
    let tt = trim_chars(&text);
    if tt.len() > 0 {
        Some(string_of(&text))
    } else {
        None
    }
}

/// The distinct non-empty quick-edit match keys of the fields of a prompt
/// (split on `,` and line breaks only).
pub open spec fn quick_tokens(v: Seq<char>) -> Seq<Seq<char>> {
    keep_first_nonempty(split_fields(v, false).map_values(|f: Seq<char>| quick_token(f)))
}

/// Adds the quick-edit match keys of `prompt` to `output` (nothing for an
/// absent prompt).
pub fn collect_prompt_tokens(prompt: Option<&Vec<char>>, output: &mut Vec<Vec<char>>)
    ensures
        match prompt {
            Some(p) => views(final(output)@).to_set() == views(old(output)@).to_set() + quick_tokens(p@).to_set(),
            None => final(output)@ == old(output)@,
        },
        views(old(output)@).no_duplicates() ==> views(final(output)@).no_duplicates(),
{
    let p = match prompt {
        Some(p) => p,
        None => return,
    };
    let fields = split_chars(p, false);
    let ghost mapped = split_fields(p@, false).map_values(|f: Seq<char>| quick_token(f));
    let ghost start = views(output@);
    let mut j: usize = 0;
    assert(mapped.take(0) =~= Seq::<Seq<char>>::empty());
    proof {
        lemma_keep_first_nonempty_facts(mapped.take(0));
    }
    assert(views(output@).to_set() =~= start.to_set() + keep_first_nonempty(mapped.take(0)).to_set());
    while j < fields.len()
        invariant
            j <= fields.len(),
            views(fields@) == split_fields(p@, false),
            mapped == split_fields(p@, false).map_values(|f: Seq<char>| quick_token(f)),
            views(output@).to_set() == start.to_set() + keep_first_nonempty(mapped.take(j as int)).to_set(),
            start.no_duplicates() ==> views(output@).no_duplicates(),
        decreases fields.len() - j,
    {
        let t = quick_token_chars(&fields[j]);
        assert(mapped[j as int] == t@);
        assert(mapped.take(j + 1) =~= mapped.take(j as int).push(t@));
        proof {
            lemma_keep_first_push(mapped.take(j as int), t@);
            lemma_keep_first_nonempty_facts(mapped.take(j as int));
            lemma_keep_first_nonempty_facts(mapped.take(j + 1));
        }
        let ghost before = views(output@);
        let ghost tv = t@;
        push_new_nonempty(output, t);
        proof {
            if tv.len() > 0 && !before.contains(tv) {
                before.lemma_push_to_set_commute(tv);
                assert(views(output@) == before.push(tv));
                if before.no_duplicates() {
                    assert forall|a: int, b: int| 0 <= a < b < views(output@).len() implies views(output@)[a] != views(output@)[b] by {
                        if b == before.len() {
                            assert(before[a] == views(output@)[a]);
                        }
                    }
                }
            }
            assert(views(output@).to_set() =~= start.to_set() + keep_first_nonempty(mapped.take(j + 1)).to_set()) by {
                assert forall|x: Seq<char>| views(output@).to_set().contains(x) <==> (start.to_set() + keep_first_nonempty(mapped.take(j + 1)).to_set()).contains(x) by {
                    assert(keep_first_nonempty(mapped.take(j + 1)).to_set().contains(x) <==> keep_first_nonempty(mapped.take(j + 1)).contains(x));
                    assert(keep_first_nonempty(mapped.take(j as int)).to_set().contains(x) <==> keep_first_nonempty(mapped.take(j as int)).contains(x));
                    assert(views(output@).to_set().contains(x) <==> views(output@).contains(x));
                    assert(before.to_set().contains(x) <==> before.contains(x));
                    if tv.len() > 0 && !before.contains(tv) {
                        assert(views(output@).contains(x) <==> (before.contains(x) || x == tv)) by {
                            if x == tv {
                                assert(views(output@)[before.len() as int] == x);
                            }
                            if before.contains(x) {
                                let i = choose|i: int| 0 <= i < before.len() && before[i] == x;
                                assert(views(output@)[i] == x);
                            }
                            if views(output@).contains(x) && x != tv {
                                let i = choose|i: int| 0 <= i < views(output@).len() && views(output@)[i] == x;
                                assert(before[i] == x);
                            }
                        }
                    }
                    let m1 = mapped.take(j + 1);
                    let m0 = mapped.take(j as int);
                    assert(m1.contains(x) <==> (m0.contains(x) || x == tv)) by {
                        if x == tv {
                            assert(m1[j as int] == x);
                        }
                        if m0.contains(x) {
                            let i = choose|i: int| 0 <= i < m0.len() && m0[i] == x;
                            assert(m1[i] == x);
                        }
                        if m1.contains(x) && x != tv {
                            let i = choose|i: int| 0 <= i < m1.len() && m1[i] == x;
                            assert(m0[i] == x);
                        }
                    }
                }
            }
        }
        j = j + 1;
    }
    assert(mapped.take(j as int) =~= mapped);
}

/// Whether some field of `s` trims to what `x` trims to.
pub open spec fn has_trim_field(s: Seq<char>, x: Seq<char>) -> bool {
    exists|j: int| 0 <= j < split_fields(s, true).len() && #[trigger] trim(split_fields(s, true)[j]) == trim(x)
}

/// A prompt holds the match key of a fragment when some field of it trims
/// to what the fragment trims to and the key is not empty.
proof fn lemma_trim_field_token(s: Seq<char>, x: Seq<char>)
    requires
        has_trim_field(s, x),
        rule_token(x).len() > 0,
    ensures
        rule_tokens(s).contains(rule_token(x)),
{
    let j = choose|j: int| 0 <= j < split_fields(s, true).len() && #[trigger] trim(split_fields(s, true)[j]) == trim(x);
    let keys = split_fields(s, true).map_values(|f: Seq<char>| rule_token(f));
    assert(keys[j] == rule_token(x));
    lemma_keep_first_nonempty_facts(keys);
}

/// The fields of `a` followed by `,` and `b` are those of `a` and then
/// those of `b`.
proof fn lemma_split_after_comma(a: Seq<char>, b: Seq<char>)
    ensures
        split_fields(a.push(',') + b, true) == split_fields(a, true) + split_fields(b, true),
{
    lemma_split_concat(a.push(','), b, true);
    lemma_split_fields_nonempty(b, true);
    assert(a.push(',').drop_last() =~= a);
    let sa = split_fields(a.push(','), true);
    assert(sa == split_fields(a, true).push(Seq::<char>::empty()));
    assert(Seq::<char>::empty() + split_fields(b, true)[0] =~= split_fields(b, true)[0]);
    assert(sa.drop_last() =~= split_fields(a, true));
    assert(split_fields(a, true) + seq![split_fields(b, true)[0]] + split_fields(b, true).drop_first()
        =~= split_fields(a, true) + split_fields(b, true));
}

/// Every part joined with `, ` trims like some field of the joined text.
proof fn lemma_join_fields(parts: Seq<Seq<char>>, k: int)
    requires
        0 <= k < parts.len(),
        forall|i: int| 0 <= i < parts.len() ==> separator_free(#[trigger] parts[i], true),
    ensures
        has_trim_field(join(parts, comma_sep()), parts[k]),
    decreases parts.len(),
{
    if parts.len() == 1 {
        lemma_split_separator_free(parts[0], true);
        assert(split_fields(join(parts, comma_sep()), true)[0] == parts[0]);
        assert(trim(split_fields(join(parts, comma_sep()), true)[0]) == trim(parts[k]));
    } else {
        let init = parts.drop_last();
        let last = parts.last();
        let spaced = seq![' '] + last;
        assert(join(parts, comma_sep()) =~= join(init, comma_sep()).push(',') + spaced);
        lemma_split_after_comma(join(init, comma_sep()), spaced);
        assert(separator_free(last, true));
        assert(separator_free(spaced, true)) by {
            assert forall|i: int| 0 <= i < spaced.len() implies !is_separator(#[trigger] spaced[i], true) by {
                if i > 0 {
                    assert(spaced[i] == last[i - 1]);
                }
            }
        }
        lemma_split_separator_free(spaced, true);
        let whole = split_fields(join(parts, comma_sep()), true);
        let left = split_fields(join(init, comma_sep()), true);
        if k < parts.len() - 1 {
            lemma_join_fields(init, k);
            let j = choose|j: int| 0 <= j < left.len() && #[trigger] trim(left[j]) == trim(init[k]);
            assert(whole[j] == left[j]);
            assert(init[k] == parts[k]);
            assert(trim(split_fields(join(parts, comma_sep()), true)[j]) == trim(parts[k]));
        } else {
            lemma_trim_white_prefix(seq![' '], last);
            assert(whole[left.len() as int] == spaced);
            assert(trim(split_fields(join(parts, comma_sep()), true)[left.len() as int]) == trim(parts[k]));
        }
    }
}

/// A space before a text keeps every field's trimmed form available.
proof fn lemma_space_prefix_fields(s: Seq<char>, x: Seq<char>)
    requires
        has_trim_field(s, x),
    ensures
        has_trim_field(seq![' '] + s, x),
{
    lemma_split_concat(seq![' '], s, true);
    lemma_split_separator_free(seq![' '], true);
    lemma_split_fields_nonempty(s, true);
    let fs = split_fields(s, true);
    let whole = split_fields(seq![' '] + s, true);
    let j = choose|j: int| 0 <= j < fs.len() && #[trigger] trim(fs[j]) == trim(x);
    if j == 0 {
        lemma_trim_white_prefix(seq![' '], fs[0]);
        assert(whole[0] == seq![' '] + fs[0]);
    } else {
        assert(whole[j] == fs[j]);
    }
}

/// Every field of `s` that is not blank trims like some field of `trim(s)`.
proof fn lemma_trimmed_text_fields(s: Seq<char>, f: Seq<char>)
    requires
        split_fields(s, true).contains(f),
        trim(f).len() > 0,
    ensures
        has_trim_field(trim(s), f),
{
    lemma_trim_start_shape(s);
    let ts = trim_start(s);
    lemma_trim_end_shape(ts);
    let core = trim(s);
    let i = s.len() - ts.len();
    let w1 = s.take(i);
    let w2 = ts.skip(core.len() as int);
    assert(all_white(w1));
    assert(all_white(w2)) by {
        assert forall|k: int| 0 <= k < w2.len() implies is_white_space(#[trigger] w2[k]) by {
            assert(w2[k] == ts[k + core.len()]);
        }
    }
    assert(ts =~= core + w2);
    assert(s =~= w1 + (core + w2));
    lemma_split_concat(w1, core + w2, true);
    lemma_split_concat(core, w2, true);
    lemma_white_fields(w1, true);
    lemma_white_fields(w2, true);
    lemma_split_fields_nonempty(w1, true);
    lemma_split_fields_nonempty(w2, true);
    lemma_split_fields_nonempty(core, true);
    let fw1 = split_fields(w1, true);
    let fw2 = split_fields(w2, true);
    let fc = split_fields(core, true);
    let g = split_fields(core + w2, true);
    let whole = split_fields(s, true);
    let n = choose|n: int| 0 <= n < whole.len() && whole[n] == f;
    // Every field of `core + w2` that is not blank trims like a field of `core`.
    assert forall|m: int| 0 <= m < g.len() && trim(#[trigger] g[m]).len() > 0 implies has_trim_field(core, g[m]) by {
        if m < fc.len() - 1 {
            assert(g[m] == fc[m]);
        } else if m == fc.len() - 1 {
            assert(g[m] == fc.last() + fw2[0]);
            lemma_trim_white_suffix(fc.last(), fw2[0]);
            assert(trim(fc[fc.len() - 1]) == trim(g[m]));
        } else {
            assert(g[m] == fw2[m - fc.len() + 1]);
            lemma_white_trims_empty(fw2[m - fc.len() + 1]);
        }
    }
    if n < fw1.len() - 1 {
        assert(whole[n] == fw1[n]);
        lemma_white_trims_empty(fw1[n]);
    } else if n == fw1.len() - 1 {
        assert(whole[n] == fw1.last() + g[0]);
        lemma_trim_white_prefix(fw1.last(), g[0]);
        assert(trim(g[0]).len() > 0);
    } else {
        assert(whole[n] == g[n - fw1.len() + 1]);
    }
}

/// A text whose trimmed form is empty has only blank fields.
proof fn lemma_blank_text_fields(s: Seq<char>)
    requires
        trim(s).len() == 0,
    ensures
        forall|k: int| 0 <= k < split_fields(s, true).len() ==> trim(#[trigger] split_fields(s, true)[k]).len() == 0,
{
    lemma_trim_start_shape(s);
    lemma_trim_end_shape(trim_start(s));
    assert(all_white(s)) by {
        assert forall|k: int| 0 <= k < s.len() implies is_white_space(#[trigger] s[k]) by {
            let ts = trim_start(s);
            if k >= s.len() - ts.len() {
                assert(s[k] == ts[k - (s.len() - ts.len())]);
            }
        }
    }
    lemma_white_fields(s, true);
    assert forall|k: int| 0 <= k < split_fields(s, true).len() implies trim(#[trigger] split_fields(s, true)[k]).len()
        == 0 by {
        lemma_white_trims_empty(split_fields(s, true)[k]);
    }
}

/// What `missing_additions` gives: the missing additions are additions,
/// and the final keys hold every addition's key, each either available at
/// the start or the key of a missing addition.
proof fn lemma_missing_additions_facts(adds: Seq<Seq<char>>, avail: Set<Seq<char>>)
    ensures
        forall|x: Seq<char>| #[trigger] missing_additions(adds, avail).0.contains(x) ==> adds.contains(x),
        forall|i: int| 0 <= i < adds.len() ==> missing_additions(adds, avail).1.contains(rule_token(#[trigger] adds[i])),
        forall|t: Seq<char>| #[trigger] missing_additions(adds, avail).1.contains(t) ==> avail.contains(t) || exists|x: Seq<char>|
            missing_additions(adds, avail).0.contains(x) && rule_token(x) == t,
    decreases adds.len(),
{
    if adds.len() > 0 {
        let d = adds.drop_last();
        lemma_missing_additions_facts(d, avail);
        let (m, st) = missing_additions(d, avail);
        let a = adds.last();
        assert forall|x: Seq<char>| #[trigger] missing_additions(adds, avail).0.contains(x) implies adds.contains(x) by {
            if m.contains(x) {
                let i = choose|i: int| 0 <= i < d.len() && d[i] == x;
                assert(adds[i] == x);
            } else {
                let i = choose|i: int| 0 <= i < m.push(a).len() && m.push(a)[i] == x;
                assert(adds[adds.len() - 1] == x);
            }
        }
        assert forall|i: int| 0 <= i < adds.len() implies missing_additions(adds, avail).1.contains(
            rule_token(#[trigger] adds[i]),
        ) by {
            if i < adds.len() - 1 {
                assert(adds[i] == d[i]);
            }
        }
        assert forall|t: Seq<char>| #[trigger] missing_additions(adds, avail).1.contains(t) implies avail.contains(t)
            || exists|x: Seq<char>| missing_additions(adds, avail).0.contains(x) && rule_token(x) == t by {
            if st.contains(t) {
                if !avail.contains(t) {
                    let x = choose|x: Seq<char>| m.contains(x) && rule_token(x) == t;
                    let i = choose|i: int| 0 <= i < m.len() && m[i] == x;
                    if !st.contains(rule_token(a)) {
                        assert(m.push(a)[i] == x);
                    }
                    assert(missing_additions(adds, avail).0.contains(x));
                }
            } else {
                assert(t == rule_token(a));
                assert(m.push(a)[m.len() as int] == a);
                assert(missing_additions(adds, avail).0.contains(a));
            }
        }
    }
}

/// Nothing is missing when every addition's key is available.
proof fn lemma_nothing_missing(adds: Seq<Seq<char>>, avail: Set<Seq<char>>)
    requires
        forall|i: int| 0 <= i < adds.len() ==> avail.contains(rule_token(#[trigger] adds[i])),
    ensures
        missing_additions(adds, avail).0.len() == 0,
        missing_additions(adds, avail).1 == avail,
    decreases adds.len(),
{
    if adds.len() > 0 {
        let d = adds.drop_last();
        assert forall|i: int| 0 <= i < d.len() implies avail.contains(rule_token(#[trigger] d[i])) by {
            assert(d[i] == adds[i]);
        }
        lemma_nothing_missing(d, avail);
        assert(avail.contains(rule_token(adds[adds.len() - 1])));
    }
}

/// The additions of `value` are trimmed fields of it that are not blank.
proof fn lemma_additions_are_fields(fields: Seq<Seq<char>>, x: Seq<char>)
    requires
        nonempty_only(fields.map_values(|f: Seq<char>| trim(f))).contains(x),
    ensures
        exists|k: int| 0 <= k < fields.len() && #[trigger] trim(fields[k]) == x && x.len() > 0,
    decreases fields.len(),
{
    let t = fields.map_values(|f: Seq<char>| trim(f));
    let d = fields.drop_last();
    assert(t.drop_last() =~= d.map_values(|f: Seq<char>| trim(f)));
    let r = nonempty_only(t.drop_last());
    if fields.len() > 0 {
        if r.contains(x) {
            lemma_additions_are_fields(d, x);
            let k = choose|k: int| 0 <= k < d.len() && #[trigger] trim(d[k]) == x && x.len() > 0;
            assert(fields[k] == d[k]);
        } else {
            let i = choose|i: int| 0 <= i < r.push(t.last()).len() && r.push(t.last())[i] == x;
            assert(trim(fields[fields.len() - 1]) == x);
        }
    }
}

/// Appending the same tags a second time changes nothing more, provided
/// every fragment of the appended tags that is not blank has a match key.
pub proof fn lemma_append_twice(current: Option<Seq<char>>, value: Seq<char>)
    requires
        forall|k: int| 0 <= k < split_fields(value, true).len() && trim(split_fields(value, true)[k]).len() > 0
            ==> #[trigger] rule_token(split_fields(value, true)[k]).len() > 0,
    ensures
        appended_prompt(appended_prompt(current, value), value) == appended_prompt(current, value),
{
    let adds = nonempty_only(trimmed_fields(value));
    let cur = match current {
        Some(c) => c,
        None => Seq::<char>::empty(),
    };
    let t0 = rule_tokens(cur).to_set();
    let missing = missing_additions(adds, t0).0;
    if adds.len() == 0 || missing.len() == 0 {
        return;
    }
    let j = join(missing, comma_sep());
    let text = if current is Some && trim(cur).len() > 0 {
        trim(cur) + comma_sep() + j
    } else {
        j
    };
    lemma_missing_additions_facts(adds, t0);
    lemma_fields_separator_free(value, true);
    // Every missing addition is a non-blank trimmed field of `value`, free of
    // separators, whose key is not empty.
    assert forall|i: int| 0 <= i < missing.len() implies separator_free(#[trigger] missing[i], true) && trim(
        missing[i],
    ) == missing[i] && rule_token(missing[i]).len() > 0 && missing[i].len() > 0 by {
        assert(missing.contains(missing[i]));
        assert(adds.contains(missing[i]));
        assert(trimmed_fields(value) =~= split_fields(value, true).map_values(|f: Seq<char>| trim(f)));
        lemma_additions_are_fields(split_fields(value, true), missing[i]);
        let k = choose|k: int| 0 <= k < split_fields(value, true).len() && #[trigger] trim(split_fields(value, true)[k])
            == missing[i] && missing[i].len() > 0;
        let f = split_fields(value, true)[k];
        lemma_trim_start_shape(f);
        lemma_trim_end_shape(trim_start(f));
        assert(separator_free(f, true));
        assert forall|c: int| 0 <= c < missing[i].len() implies !is_separator(#[trigger] missing[i][c], true) by {
            let ts = trim_start(f);
            assert(missing[i][c] == ts[c]);
            assert(ts[c] == f[c + (f.len() - ts.len())]);
        }
        crate::text::lemma_trim_idempotent(f);
        assert(rule_token(f).len() > 0);
        assert(rule_token(missing[i]) == rule_token(f));
    }
    // Each missing addition trims like some field of the appended text.
    assert forall|i: int| 0 <= i < missing.len() implies has_trim_field(text, #[trigger] missing[i]) by {
        lemma_join_fields(missing, i);
        if current is Some && trim(cur).len() > 0 {
            lemma_space_prefix_fields(j, missing[i]);
            assert(text =~= trim(cur).push(',') + (seq![' '] + j));
            lemma_split_after_comma(trim(cur), seq![' '] + j);
            let inner = split_fields(seq![' '] + j, true);
            let q = choose|q: int| 0 <= q < inner.len() && #[trigger] trim(inner[q]) == trim(missing[i]);
            assert(split_fields(text, true)[split_fields(trim(cur), true).len() + q] == inner[q]);
        }
    }
    // The appended text is not blank, so the first call gives it.
    assert(trim(text).len() > 0) by {
        if trim(text).len() == 0 {
            lemma_blank_text_fields(text);
            let q = choose|q: int| 0 <= q < split_fields(text, true).len() && #[trigger] trim(split_fields(text, true)[q])
                == trim(missing[0]);
        }
    }
    let t1 = rule_tokens(text).to_set();
    // Every addition's key is among the keys of the appended text.
    assert forall|i: int| 0 <= i < adds.len() implies t1.contains(rule_token(#[trigger] adds[i])) by {
        let t = rule_token(adds[i]);
        let fin = missing_additions(adds, t0).1;
        assert(fin.contains(t));
        if exists|x: Seq<char>| missing.contains(x) && rule_token(x) == t {
            let x = choose|x: Seq<char>| missing.contains(x) && rule_token(x) == t;
            let k = choose|k: int| 0 <= k < missing.len() && missing[k] == x;
            lemma_trim_field_token(text, missing[k]);
        } else {
            assert(t0.contains(t));
            assert(rule_tokens(cur).contains(t));
            let keys = split_fields(cur, true).map_values(|f: Seq<char>| rule_token(f));
            lemma_keep_first_nonempty_facts(keys);
            let k = choose|k: int| 0 <= k < keys.len() && keys[k] == t;
            let f = split_fields(cur, true)[k];
            if trim(f).len() == 0 {
                assert(trim(f) =~= trim(Seq::<char>::empty()));
                assert(rule_token(f) == rule_token(Seq::<char>::empty()));
            }
            assert(split_fields(cur, true).contains(f));
            if trim(cur).len() == 0 {
                lemma_blank_text_fields(cur);
            }
            lemma_trimmed_text_fields(cur, f);
            assert(current is Some) by {
                if current is None {
                    assert(cur =~= Seq::<char>::empty());
                    lemma_blank_text_fields(cur);
                }
            }
            let g = choose|g: int| 0 <= g < split_fields(trim(cur), true).len() && #[trigger] trim(split_fields(trim(cur), true)[g])
                == trim(f);
            assert(text =~= trim(cur).push(',') + (seq![' '] + j));
            lemma_split_after_comma(trim(cur), seq![' '] + j);
            assert(split_fields(text, true)[g] == split_fields(trim(cur), true)[g]);
            lemma_trim_field_token(text, f);
        }
    }
    lemma_nothing_missing(adds, t1);
}

} // verus!
