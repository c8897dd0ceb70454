//! Character-level text primitives shared by the library: the Unicode
//! `White_Space` set used by trimming, trimming itself, splitting on the
//! prompt separators, and conversions between `str`/`String` and `Vec<char>`.
use vstd::prelude::*;

verus! {

/// The Unicode `White_Space` property, which `char::is_whitespace` and
/// `str::trim` use.
pub open spec fn is_white_space(c: char) -> bool {
    let u = c as u32;
    ||| 0x9 <= u <= 0xD
    ||| u == 0x20
    ||| u == 0x85
    ||| u == 0xA0
    ||| u == 0x1680
    ||| 0x2000 <= u <= 0x200A
    ||| u == 0x2028
    ||| u == 0x2029
    ||| u == 0x202F
    ||| u == 0x205F
    ||| u == 0x3000
}

pub fn is_white_space_char(c: char) -> (b: bool)
    ensures
        b == is_white_space(c),
{
    let u = c as u32;
    (0x9 <= u && u <= 0xD) || u == 0x20 || u == 0x85 || u == 0xA0 || u == 0x1680 || (0x2000 <= u
        && u <= 0x200A) || u == 0x2028 || u == 0x2029 || u == 0x202F || u == 0x205F || u == 0x3000
}

/// The characters of `s` as a vector.
pub fn chars_of(s: &str) -> (v: Vec<char>)
    ensures
        v@ == s@,
{
    let n = s.unicode_len();
    let mut v: Vec<char> = Vec::new();
    let mut i: usize = 0;
    while i < n
        invariant
            n == s@.len(),
            i <= n,
            v@ == s@.take(i as int),
        decreases n - i,
    {
        let c = s.get_char(i);
        v.push(c);
        i = i + 1;
        assert(v@ =~= s@.take(i as int));
    }
    assert(s@.take(n as int) =~= s@);
    v
}

} // verus!

verus! {

/// `s` with leading white space removed.
pub open spec fn trim_start(s: Seq<char>) -> Seq<char>
    decreases s.len(),
{
    if s.len() > 0 && is_white_space(s[0]) {
        trim_start(s.drop_first())
    } else {
        s
    }
}

/// `s` with trailing white space removed.
pub open spec fn trim_end(s: Seq<char>) -> Seq<char>
    decreases s.len(),
{
    if s.len() > 0 && is_white_space(s.last()) {
        trim_end(s.drop_last())
    } else {
        s
    }
}

/// `s` with white space removed at both ends, as `str::trim` does.
pub open spec fn trim(s: Seq<char>) -> Seq<char> {
    trim_end(trim_start(s))
}

pub proof fn lemma_trim_start_shape(s: Seq<char>)
    ensures
        trim_start(s).len() <= s.len(),
        trim_start(s) == s.skip(s.len() - trim_start(s).len()),
        trim_start(s).len() > 0 ==> !is_white_space(trim_start(s)[0]),
        forall|k: int| 0 <= k < s.len() - trim_start(s).len() ==> is_white_space(#[trigger] s[k]),
    decreases s.len(),
{
    if s.len() > 0 && is_white_space(s[0]) {
        lemma_trim_start_shape(s.drop_first());
        assert(s.drop_first().skip(s.drop_first().len() - trim_start(s.drop_first()).len()) =~= s.skip(
            s.len() - trim_start(s).len(),
        ));
        assert forall|k: int| 0 <= k < s.len() - trim_start(s).len() implies is_white_space(
            #[trigger] s[k],
        ) by {
            if k > 0 {
                assert(s[k] == s.drop_first()[k - 1]);
            }
        }
    } else {
        assert(s.skip(0) =~= s);
    }
}

pub proof fn lemma_trim_end_shape(s: Seq<char>)
    ensures
        trim_end(s).len() <= s.len(),
        trim_end(s) == s.take(trim_end(s).len() as int),
        trim_end(s).len() > 0 ==> !is_white_space(trim_end(s).last()),
        forall|k: int| trim_end(s).len() <= k < s.len() ==> is_white_space(#[trigger] s[k]),
    decreases s.len(),
{
    if s.len() > 0 && is_white_space(s.last()) {
        lemma_trim_end_shape(s.drop_last());
        assert(s.drop_last().take(trim_end(s.drop_last()).len() as int) =~= s.take(
            trim_end(s).len() as int,
        ));
        assert forall|k: int| trim_end(s).len() <= k < s.len() implies is_white_space(
            #[trigger] s[k],
        ) by {
            if k < s.len() - 1 {
                assert(s[k] == s.drop_last()[k]);
            }
        }
    } else {
        assert(s.take(s.len() as int) =~= s);
    }
}

/// Trimming drops only white space from the ends, so it never lengthens and
/// its result starts and ends with a non-white-space character.
pub proof fn lemma_trim_shape(s: Seq<char>)
    ensures
        trim(s).len() <= s.len(),
        trim(s).len() > 0 ==> !is_white_space(trim(s)[0]) && !is_white_space(trim(s).last()),
        trim(s).len() == s.len() ==> trim(s) == s,
{
    lemma_trim_start_shape(s);
    lemma_trim_end_shape(trim_start(s));
    let a = trim_start(s);
    let b = trim_end(a);
    if b.len() > 0 {
        assert(b[0] == a[0]);
    }
    if b.len() == s.len() {
        assert(a.len() == s.len());
        assert(a =~= s);
        assert(b =~= a);
    }
}

pub proof fn lemma_trim_start_of_non_ws(s: Seq<char>)
    requires
        s.len() == 0 || !is_white_space(s[0]),
    ensures
        trim_start(s) == s,
{
}

pub proof fn lemma_trim_end_of_non_ws(s: Seq<char>)
    requires
        s.len() == 0 || !is_white_space(s.last()),
    ensures
        trim_end(s) == s,
{
}

/// Trimming twice is trimming once.
pub proof fn lemma_trim_idempotent(s: Seq<char>)
    ensures
        trim(trim(s)) == trim(s),
{
    lemma_trim_shape(s);
    let t = trim(s);
    lemma_trim_start_of_non_ws(t);
    lemma_trim_end_of_non_ws(t);
}

/// Bounds `[a, b)` of the trimmed part of `v`.
pub fn trim_bounds(v: &Vec<char>) -> (r: (usize, usize))
    ensures
        r.0 <= r.1 <= v.len(),
        v@.subrange(r.0 as int, r.1 as int) == trim(v@),
{
    let n = v.len();
    let mut a: usize = 0;
    assert(v@.skip(0) =~= v@);
    while a < n && is_white_space_char(v[a])
        invariant
            a <= n == v.len(),
            trim_start(v@) == trim_start(v@.skip(a as int)),
        decreases n - a,
    {
        assert(v@.skip(a as int).drop_first() =~= v@.skip(a + 1));
        a = a + 1;
    }
    let ghost t = v@.skip(a as int);
    assert(trim_start(t) == t);
    let mut b: usize = n;
    while b > a && is_white_space_char(v[b - 1])
        invariant
            a <= b <= n == v.len(),
            t == v@.skip(a as int),
            trim_end(t) == trim_end(v@.subrange(a as int, b as int)),
        decreases b - a,
    {
        assert(v@.subrange(a as int, b as int).drop_last() =~= v@.subrange(a as int, b - 1));
        b = b - 1;
    }
    assert(v@.subrange(a as int, n as int) =~= t);
    (a, b)
}

/// A copy of `v[a..b]`.
pub fn sub_chars(v: &Vec<char>, a: usize, b: usize) -> (r: Vec<char>)
    requires
        a <= b <= v.len(),
    ensures
        r@ == v@.subrange(a as int, b as int),
{
    let mut r: Vec<char> = Vec::new();
    let mut i = a;
    while i < b
        invariant
            a <= i <= b <= v.len(),
            r@ == v@.subrange(a as int, i as int),
        decreases b - i,
    {
        r.push(v[i]);
        i = i + 1;
        assert(r@ =~= v@.subrange(a as int, i as int));
    }
    r
}

/// `v` trimmed at both ends.
pub fn trim_chars(v: &Vec<char>) -> (r: Vec<char>)
    ensures
        r@ == trim(v@),
{
    let (a, b) = trim_bounds(v);
    sub_chars(v, a, b)
}

/// Whether two character sequences are equal.
pub fn chars_eq(a: &Vec<char>, b: &Vec<char>) -> (r: bool)
    ensures
        r == (a@ == b@),
{
    if a.len() != b.len() {
        return false;
    }
    let mut i: usize = 0;
    while i < a.len()
        invariant
            a.len() == b.len(),
            i <= a.len(),
            forall|k: int| 0 <= k < i ==> a@[k] == b@[k],
        decreases a.len() - i,
    {
        if a[i] != b[i] {
            return false;
        }
        i = i + 1;
    }
    assert(a@ =~= b@);
    true
}

/// The string whose characters are `v`.
#[verifier::external_body]
pub fn string_of(v: &Vec<char>) -> (s: String)
    ensures
        s@ == v@,
{
    v.iter().collect()
}

/// What `str::to_lowercase` returns for a string with these characters
/// (the Unicode `Lowercase` mapping, which can change the length).
pub uninterp spec fn lowercase(s: Seq<char>) -> Seq<char>;

/// Calls `str::to_lowercase` on the string with the characters of `v`; its
/// result is named by `lowercase`.
#[verifier::external_body]
pub fn lowercase_chars(v: &Vec<char>) -> (r: Vec<char>)
    ensures
        r@ == lowercase(v@),
{
    let s: String = v.iter().collect();
    s.to_lowercase().chars().collect()
}

} // verus!

verus! {

/// ASCII lower-casing of one character, as `char::to_ascii_lowercase`.
pub open spec fn ascii_lower(c: char) -> char {
    if 'A' <= c <= 'Z' {
        ((c as u32) + 32) as char
    } else {
        c
    }
}

pub fn ascii_lower_char(c: char) -> (r: char)
    ensures
        r == ascii_lower(c),
{
    if 'A' <= c && c <= 'Z' {
        let b: u8 = (c as u8) + 32;
        b as char
    } else {
        c
    }
}

} // verus!

verus! {

/// The characters that separate prompt fields: `,`, line feed and carriage
/// return, and with `wide` also the full-width comma `，`.
pub open spec fn is_separator(c: char, wide: bool) -> bool {
    c == ',' || c == '\n' || c == '\r' || (wide && c == '，')
}

pub fn is_separator_char(c: char, wide: bool) -> (b: bool)
    ensures
        b == is_separator(c, wide),
{
    c == ',' || c == '\n' || c == '\r' || (wide && c == '，')
}

/// The fields of `s` between separators, as `str::split` yields them:
/// always at least one field, empty fields included.
pub open spec fn split_fields(s: Seq<char>, wide: bool) -> Seq<Seq<char>>
    decreases s.len(),
{
    if s.len() == 0 {
        seq![Seq::<char>::empty()]
    } else {
        let r = split_fields(s.drop_last(), wide);
        if is_separator(s.last(), wide) {
            r.push(Seq::<char>::empty())
        } else {
            r.update(r.len() - 1, r.last().push(s.last()))
        }
    }
}

pub proof fn lemma_split_fields_nonempty(s: Seq<char>, wide: bool)
    ensures
        split_fields(s, wide).len() >= 1,
    decreases s.len(),
{
    if s.len() > 0 {
        lemma_split_fields_nonempty(s.drop_last(), wide);
    }
}

/// Whether `s` holds no separator.
pub open spec fn separator_free(s: Seq<char>, wide: bool) -> bool {
    forall|i: int| 0 <= i < s.len() ==> !is_separator(#[trigger] s[i], wide)
}

/// Whether every character of `s` is white space.
pub open spec fn all_white(s: Seq<char>) -> bool {
    forall|i: int| 0 <= i < s.len() ==> is_white_space(#[trigger] s[i])
}

/// The fields of `a + b`: those of `a` and of `b`, the last field of `a`
/// joined to the first of `b`.
pub proof fn lemma_split_concat(a: Seq<char>, b: Seq<char>, wide: bool)
    ensures
        split_fields(a + b, wide) == split_fields(a, wide).drop_last() + seq![
            split_fields(a, wide).last() + split_fields(b, wide)[0],
        ] + split_fields(b, wide).drop_first(),
    decreases b.len(),
{
    lemma_split_fields_nonempty(a, wide);
    if b.len() == 0 {
        assert(a + b =~= a);
        assert(split_fields(a, wide).last() + Seq::<char>::empty() =~= split_fields(a, wide).last());
        assert(split_fields(a, wide).drop_last() + seq![split_fields(a, wide).last()] =~= split_fields(a, wide));
        assert(split_fields(b, wide).drop_first() =~= Seq::<Seq<char>>::empty());
    } else {
        let b0 = b.drop_last();
        let x = b.last();
        lemma_split_concat(a, b0, wide);
        lemma_split_fields_nonempty(b0, wide);
        assert((a + b).drop_last() =~= a + b0);
        assert((a + b).last() == x);
        let q = split_fields(b0, wide);
        let sa = split_fields(a, wide);
        if is_separator(x, wide) {
            assert(split_fields(b, wide) == q.push(Seq::<char>::empty()));
            assert(split_fields(a + b, wide) =~= sa.drop_last() + seq![sa.last() + split_fields(b, wide)[0]]
                + split_fields(b, wide).drop_first());
        } else {
            assert(split_fields(b, wide) == q.update(q.len() - 1, q.last().push(x)));
            if q.len() == 1 {
                assert((sa.last() + q[0]).push(x) =~= sa.last() + q[0].push(x));
            } else {
                assert(split_fields(b, wide).drop_first() =~= q.drop_first().update(
                    q.len() - 2,
                    q.last().push(x),
                ));
            }
            assert(split_fields(a + b, wide) =~= sa.drop_last() + seq![sa.last() + split_fields(b, wide)[0]]
                + split_fields(b, wide).drop_first());
        }
    }
}

/// Text without separators is one field.
pub proof fn lemma_split_separator_free(s: Seq<char>, wide: bool)
    requires
        separator_free(s, wide),
    ensures
        split_fields(s, wide) == seq![s],
    decreases s.len(),
{
    if s.len() > 0 {
        assert(separator_free(s.drop_last(), wide));
        lemma_split_separator_free(s.drop_last(), wide);
        assert(!is_separator(s[s.len() - 1], wide));
        assert(!is_separator(s.last(), wide));
        let r = split_fields(s.drop_last(), wide);
        assert(r == seq![s.drop_last()]);
        assert(split_fields(s, wide) == r.update(r.len() - 1, r.last().push(s.last())));
        assert(s.drop_last().push(s.last()) =~= s);
        assert(r.update(r.len() - 1, r.last().push(s.last())) =~= seq![s]);
    } else {
        assert(s =~= Seq::<char>::empty());
    }
}

/// Every field of `s` holds no separator.
pub proof fn lemma_fields_separator_free(s: Seq<char>, wide: bool)
    ensures
        forall|k: int| 0 <= k < split_fields(s, wide).len() ==> separator_free(#[trigger] split_fields(s, wide)[k], wide),
    decreases s.len(),
{
    if s.len() > 0 {
        lemma_fields_separator_free(s.drop_last(), wide);
        lemma_split_fields_nonempty(s.drop_last(), wide);
        let r = split_fields(s.drop_last(), wide);
        if !is_separator(s.last(), wide) {
            let l = r.last().push(s.last());
            assert(separator_free(r[r.len() - 1], wide));
            assert forall|i: int| 0 <= i < l.len() implies !is_separator(#[trigger] l[i], wide) by {
                if i < l.len() - 1 {
                    assert(l[i] == r.last()[i]);
                }
            }
        }
    }
}

/// Every field of white space is white space.
pub proof fn lemma_white_fields(s: Seq<char>, wide: bool)
    requires
        all_white(s),
    ensures
        forall|k: int| 0 <= k < split_fields(s, wide).len() ==> all_white(#[trigger] split_fields(s, wide)[k]),
    decreases s.len(),
{
    if s.len() > 0 {
        assert(all_white(s.drop_last()));
        lemma_white_fields(s.drop_last(), wide);
        lemma_split_fields_nonempty(s.drop_last(), wide);
        let r = split_fields(s.drop_last(), wide);
        assert(is_white_space(s[s.len() - 1]));
        if !is_separator(s.last(), wide) {
            let l = r.last().push(s.last());
            assert(all_white(r[r.len() - 1]));
            assert forall|i: int| 0 <= i < l.len() implies is_white_space(#[trigger] l[i]) by {
                if i < l.len() - 1 {
                    assert(l[i] == r.last()[i]);
                }
            }
        }
    }
}

/// White space trims to nothing.
pub proof fn lemma_white_trims_empty(s: Seq<char>)
    requires
        all_white(s),
    ensures
        trim(s).len() == 0,
{
    lemma_trim_start_shape(s);
    if trim_start(s).len() > 0 {
        assert(trim_start(s)[0] == s[s.len() - trim_start(s).len()]);
    }
}

/// Leading white space does not change the trimmed text.
pub proof fn lemma_trim_white_prefix(w: Seq<char>, x: Seq<char>)
    requires
        all_white(w),
    ensures
        trim(w + x) == trim(x),
    decreases w.len(),
{
    if w.len() > 0 {
        assert(is_white_space(w[0]));
        assert(w.drop_first() + x =~= (w + x).drop_first());
        assert(all_white(w.drop_first()));
        lemma_trim_white_prefix(w.drop_first(), x);
        assert(trim_start(w + x) == trim_start(w.drop_first() + x));
    } else {
        assert(w + x =~= x);
    }
}

/// Trailing white space does not change the trimmed text.
pub proof fn lemma_trim_white_suffix(x: Seq<char>, w: Seq<char>)
    requires
        all_white(w),
    ensures
        trim(x + w) == trim(x),
    decreases w.len(),
{
    lemma_trim_start_shape(x + w);
    lemma_trim_start_shape(x);
    let st = trim_start(x + w);
    if trim_start(x).len() == 0 {
        // x is all white space, so x + w is too.
        assert(all_white(x)) by {
            assert forall|i: int| 0 <= i < x.len() implies is_white_space(#[trigger] x[i]) by {}
        }
        assert(all_white(x + w)) by {
            assert forall|i: int| 0 <= i < (x + w).len() implies is_white_space(#[trigger] (x + w)[i]) by {
                if i >= x.len() {
                    assert((x + w)[i] == w[i - x.len()]);
                }
            }
        }
        lemma_white_trims_empty(x + w);
        lemma_white_trims_empty(x);
    } else {
        let k = x.len() - trim_start(x).len();
        lemma_trim_start_prefix_count(x, w);
        assert(trim_start(x + w) =~= trim_start(x) + w);
        lemma_trim_end_white_suffix(trim_start(x), w);
    }
}

/// Trimming the start of `x + w` drops as much as trimming the start of `x`
/// when `x` is not all white space.
proof fn lemma_trim_start_prefix_count(x: Seq<char>, w: Seq<char>)
    requires
        trim_start(x).len() > 0,
    ensures
        trim_start(x + w) == trim_start(x) + w,
    decreases x.len(),
{
    if x.len() > 0 && is_white_space(x[0]) {
        assert((x + w).drop_first() =~= x.drop_first() + w);
        lemma_trim_start_prefix_count(x.drop_first(), w);
    } else {
        if x.len() == 0 {
        } else {
            assert((x + w)[0] == x[0]);
        }
    }
}

proof fn lemma_trim_end_white_suffix(x: Seq<char>, w: Seq<char>)
    requires
        all_white(w),
    ensures
        trim_end(x + w) == trim_end(x),
    decreases w.len(),
{
    if w.len() > 0 {
        assert((x + w).last() == w.last());
        assert(is_white_space(w[w.len() - 1]));
        assert((x + w).drop_last() =~= x + w.drop_last());
        assert(all_white(w.drop_last()));
        lemma_trim_end_white_suffix(x, w.drop_last());
    } else {
        assert(x + w =~= x);
    }
}

/// The views of a vector of character vectors.
pub open spec fn views(v: Seq<Vec<char>>) -> Seq<Seq<char>> {
    v.map_values(|x: Vec<char>| x@)
}

/// Splits `v` into its fields.
pub fn split_chars(v: &Vec<char>, wide: bool) -> (r: Vec<Vec<char>>)
    ensures
        views(r@) == split_fields(v@, wide),
{
    let mut done: Vec<Vec<char>> = Vec::new();
    let mut cur: Vec<char> = Vec::new();
    let mut i: usize = 0;
    assert(v@.take(0) =~= Seq::<char>::empty());
    assert(views(done@).push(cur@) =~= split_fields(v@.take(0), wide));
    while i < v.len()
        invariant
            i <= v.len(),
            views(done@).push(cur@) == split_fields(v@.take(i as int), wide),
        decreases v.len() - i,
    {
        let c = v[i];
        assert(v@.take(i + 1).drop_last() =~= v@.take(i as int));
        assert(v@.take(i + 1).last() == c);
        if is_separator_char(c, wide) {
            let ghost before = views(done@);
            let ghost old_cur = cur@;
            let finished = cur;
            cur = Vec::new();
            done.push(finished);
            assert(views(done@) =~= before.push(old_cur));
            assert(views(done@).push(cur@) =~= split_fields(v@.take(i + 1), wide));
        } else {
            let ghost before = views(done@);
            cur.push(c);
            assert(views(done@) =~= before);
            assert(views(done@).push(cur@) =~= split_fields(v@.take(i + 1), wide));
        }
        i = i + 1;
    }
    assert(v@.take(v.len() as int) =~= v@);
    let ghost before = views(done@);
    done.push(cur);
    assert(views(done@) =~= before.push(done@.last()@));
    done
}

/// Whether `x` occurs in `list`.
pub fn contains_chars(list: &Vec<Vec<char>>, x: &Vec<char>) -> (r: bool)
    ensures
        r == views(list@).contains(x@),
{
    let mut i: usize = 0;
    while i < list.len()
        invariant
            i <= list.len(),
            forall|k: int| 0 <= k < i ==> list@[k]@ != x@,
        decreases list.len() - i,
    {
        if chars_eq(&list[i], x) {
            assert(views(list@)[i as int] == x@);
            return true;
        }
        i = i + 1;
    }
    assert forall|k: int| 0 <= k < views(list@).len() implies views(list@)[k] != x@ by {
        assert(views(list@)[k] == list@[k]@);
    }
    false
}

/// The parts of `parts` joined with `sep` between them.
pub open spec fn join(parts: Seq<Seq<char>>, sep: Seq<char>) -> Seq<char>
    decreases parts.len(),
{
    if parts.len() == 0 {
        Seq::<char>::empty()
    } else if parts.len() == 1 {
        parts[0]
    } else {
        join(parts.drop_last(), sep) + sep + parts.last()
    }
}

/// Joins `parts` with `sep` between them.
pub fn join_chars(parts: &Vec<Vec<char>>, sep: &Vec<char>) -> (r: Vec<char>)
    ensures
        r@ == join(views(parts@), sep@),
{
    let mut out: Vec<char> = Vec::new();
    let mut i: usize = 0;
    while i < parts.len()
        invariant
            i <= parts.len(),
            out@ == join(views(parts@).take(i as int), sep@),
        decreases parts.len() - i,
    {
        let ghost before = out@;
        if i > 0 {
            append_chars(&mut out, sep);
        }
        append_chars(&mut out, &parts[i]);
        assert(views(parts@).take(i + 1).drop_last() =~= views(parts@).take(i as int));
        i = i + 1;
        assert(out@ =~= join(views(parts@).take(i as int), sep@));
    }
    assert(views(parts@).take(parts.len() as int) =~= views(parts@));
    out
}

/// Appends the characters of `v` to `out`.
pub fn append_chars(out: &mut Vec<char>, v: &Vec<char>)
    ensures
        final(out)@ == old(out)@ + v@,
{
    let mut i: usize = 0;
    let ghost start = out@;
    while i < v.len()
        invariant
            i <= v.len(),
            out@ == start + v@.take(i as int),
        decreases v.len() - i,
    {
        out.push(v[i]);
        i = i + 1;
        assert(out@ =~= start + v@.take(i as int));
    }
    assert(v@.take(v.len() as int) =~= v@);
}

} // verus!

verus! {

/// The views of a sequence of strings.
pub open spec fn string_views(v: Seq<String>) -> Seq<Seq<char>> {
    v.map_values(|s: String| s@)
}

/// The characters of each string.
pub fn string_chars(v: &Vec<String>) -> (r: Vec<Vec<char>>)
    ensures
        views(r@) == string_views(v@),
{
    let mut out: Vec<Vec<char>> = Vec::new();
    let mut i: usize = 0;
    while i < v.len()
        invariant
            i <= v.len(),
            views(out@) == string_views(v@).take(i as int),
        decreases v.len() - i,
    {
        let ghost before = views(out@);
        out.push(chars_of(v[i].as_str()));
        assert(views(out@) =~= before.push(v@[i as int]@));
        i = i + 1;
        assert(string_views(v@).take(i as int) =~= string_views(v@).take(i - 1).push(v@[i - 1]@));
    }
    assert(string_views(v@).take(i as int) =~= string_views(v@));
    out
}

} // verus!

verus! {

/// Whether `pat` occurs in `text` at position `i`.
pub open spec fn occurs_at(text: Seq<char>, pat: Seq<char>, i: int) -> bool {
    0 <= i && i + pat.len() <= text.len() && text.subrange(i, i + pat.len()) == pat
}

/// Whether `pat` occurs in `text`, as `str::contains` with a string pattern.
pub open spec fn contains_text(text: Seq<char>, pat: Seq<char>) -> bool {
    exists|i: int| #[trigger] occurs_at(text, pat, i)
}

fn occurs_at_exec(text: &Vec<char>, pat: &Vec<char>, i: usize) -> (r: bool)
    requires
        i + pat.len() <= text.len(),
    ensures
        r == occurs_at(text@, pat@, i as int),
{
    let mut k: usize = 0;
    while k < pat.len()
        invariant
            i + pat.len() <= text.len(),
            k <= pat.len(),
            forall|j: int| 0 <= j < k ==> text@[i + j] == pat@[j],
        decreases pat.len() - k,
    {
        if text[i + k] != pat[k] {
            assert(text@.subrange(i as int, i + pat.len())[k as int] != pat@[k as int]);
            return false;
        }
        k = k + 1;
    }
    assert(text@.subrange(i as int, i + pat.len()) =~= pat@);
    true
}

/// Whether `pat` occurs in `text`.
pub fn contains_text_chars(text: &Vec<char>, pat: &Vec<char>) -> (r: bool)
    ensures
        r == contains_text(text@, pat@),
{
    if pat.len() > text.len() {
        assert forall|i: int| !occurs_at(text@, pat@, i) by {}
        return false;
    }
    if pat.len() == 0 {
        assert(text@.subrange(0, 0) =~= pat@);
        assert(occurs_at(text@, pat@, 0));
        return true;
    }
    let last = text.len() - pat.len();
    let mut i: usize = 0;
    while i <= last
        invariant
            last + pat.len() == text.len(),
            pat.len() > 0,
            i <= last + 1,
            forall|j: int| 0 <= j < i ==> !occurs_at(text@, pat@, j),
        decreases last + 1 - i,
    {
        if occurs_at_exec(text, pat, i) {
            return true;
        }
        i = i + 1;
    }
    assert forall|j: int| !occurs_at(text@, pat@, j) by {
        if 0 <= j < i {
        }
    }
    false
}

/// Equality up to ASCII case, as `str::eq_ignore_ascii_case`.
pub open spec fn eq_ignore_ascii_case(a: Seq<char>, b: Seq<char>) -> bool {
    a.len() == b.len() && forall|i: int| 0 <= i < a.len() ==> ascii_lower(#[trigger] a[i]) == ascii_lower(b[i])
}

pub fn eq_ignore_ascii_case_chars(a: &Vec<char>, b: &Vec<char>) -> (r: bool)
    ensures
        r == eq_ignore_ascii_case(a@, b@),
{
    if a.len() != b.len() {
        return false;
    }
    let mut i: usize = 0;
    while i < a.len()
        invariant
            a.len() == b.len(),
            i <= a.len(),
            forall|k: int| 0 <= k < i ==> ascii_lower(#[trigger] a@[k]) == ascii_lower(b@[k]),
        decreases a.len() - i,
    {
        if ascii_lower_char(a[i]) != ascii_lower_char(b[i]) {
            return false;
        }
        i = i + 1;
    }
    true
}

} // verus!

verus! {

/// The lines of `s` between line feeds, as `str::split('\n')` yields them.
pub open spec fn lines_of(s: Seq<char>) -> Seq<Seq<char>>
    decreases s.len(),
{
    if s.len() == 0 {
        seq![Seq::<char>::empty()]
    } else {
        let r = lines_of(s.drop_last());
        if s.last() == '\n' {
            r.push(Seq::<char>::empty())
        } else {
            r.update(r.len() - 1, r.last().push(s.last()))
        }
    }
}

/// A text has at least one line.
pub proof fn lemma_lines_nonempty(s: Seq<char>)
    ensures
        lines_of(s).len() >= 1,
    decreases s.len(),
{
    if s.len() > 0 {
        lemma_lines_nonempty(s.drop_last());
    }
}

/// Splits `v` into its lines.
pub fn split_lines(v: &Vec<char>) -> (r: Vec<Vec<char>>)
    ensures
        views(r@) == lines_of(v@),
{
    let mut done: Vec<Vec<char>> = Vec::new();
    let mut cur: Vec<char> = Vec::new();
    let mut i: usize = 0;
    assert(v@.take(0) =~= Seq::<char>::empty());
    assert(views(done@).push(cur@) =~= lines_of(v@.take(0)));
    while i < v.len()
        invariant
            i <= v.len(),
            views(done@).push(cur@) == lines_of(v@.take(i as int)),
        decreases v.len() - i,
    {
        let c = v[i];
        assert(v@.take(i + 1).drop_last() =~= v@.take(i as int));
        assert(v@.take(i + 1).last() == c);
        proof {
            lemma_lines_nonempty(v@.take(i as int));
        }
        if c == '\n' {
            let ghost before = views(done@);
            let ghost old_cur = cur@;
            let finished = cur;
            cur = Vec::new();
            done.push(finished);
            assert(views(done@) =~= before.push(old_cur));
            assert(views(done@).push(cur@) =~= lines_of(v@.take(i + 1)));
        } else {
            let ghost before = views(done@);
            cur.push(c);
            assert(views(done@) =~= before);
            assert(views(done@).push(cur@) =~= lines_of(v@.take(i + 1)));
        }
        i = i + 1;
    }
    assert(v@.take(v.len() as int) =~= v@);
    let ghost before = views(done@);
    done.push(cur);
    assert(views(done@) =~= before.push(done@.last()@));
    done
}

} // verus!
