//! Library browsing filters compiled to SQL predicates over `rows`, with
//! their parameters. Every filter is joined to the predicate with AND.
//! Numeric comparisons carry only their operator here: their values are
//! parameters that the caller binds (`FilterParam::Real`).
use vstd::prelude::*;

use crate::batches::{decimal_text, unsigned_digits};
use crate::prompt_tokens::normalized_strings;
use crate::rules::list_entries;
use crate::text::{
    append_chars, chars_of, join, join_chars, lowercase, lowercase_chars, string_of, string_views, trim, trim_chars,
    views,
};

verus! {

/// How a tag filter combines its tags.
#[derive(Debug, Clone, Copy, PartialEq, Eq, Hash, Structural)]
pub enum FilterTagOperator {
    HasAll,
    HasAny,
    HasNone,
    IsEmpty,
}

/// How a group filter reads a row's group.
#[derive(Debug, Clone, Copy, PartialEq, Eq, Hash, Structural)]
pub enum FilterGroupOperator {
    Is,
    IsNot,
    IsEmpty,
}

/// How an artist filter reads a row's artists.
#[derive(Debug, Clone, Copy, PartialEq, Eq, Hash, Structural)]
pub enum FilterArtistOperator {
    ContainsAny,
    ContainsNone,
    IsSingle,
    IsMultiple,
    IsEmpty,
}

/// What a vibe filter asks of a row's vibe references.
#[derive(Debug, Clone, Copy, PartialEq, Eq, Hash, Structural)]
pub enum FilterVibeOperator {
    HasAny,
    HasNone,
    Count,
}

/// How a note filter reads a row's note.
#[derive(Debug, Clone, Copy, PartialEq, Eq, Hash, Structural)]
pub enum FilterNoteOperator {
    Contains,
    IsEmpty,
    IsNotEmpty,
}

/// How a numeric filter compares a value.
#[derive(Debug, Clone, Copy, PartialEq, Eq, Hash, Structural)]
pub enum FilterNumericOperator {
    Equal,
    NotEqual,
    GreaterThan,
    GreaterOrEqual,
    LessThan,
    LessOrEqual,
    Between,
}

/// The image dimension a numeric filter reads.
#[derive(Debug, Clone, Copy, PartialEq, Eq, Hash, Structural)]
pub enum FilterImageDimensionField {
    Width,
    Height,
    AspectRatio,
}

/// The orientation an orientation filter asks for.
#[derive(Debug, Clone, Copy, PartialEq, Eq, Hash, Structural)]
pub enum FilterOrientation {
    Landscape,
    Portrait,
    Square,
}

/// The generation setting a text filter reads.
#[derive(Debug, Clone, Copy, PartialEq, Eq, Hash, Structural)]
pub enum FilterGenerationTextField {
    Model,
    Sampler,
    NoiseSchedule,
    Seed,
}

/// How a text filter compares a value.
#[derive(Debug, Clone, Copy, PartialEq, Eq, Hash, Structural)]
pub enum FilterTextOperator {
    Contains,
    Equals,
}

/// The generation setting a numeric filter reads.
#[derive(Debug, Clone, Copy, PartialEq, Eq, Hash, Structural)]
pub enum FilterGenerationNumberField {
    Steps,
    Scale,
    CfgRescale,
}

/// A library filter; a numeric comparison is given by its operator, its
/// values being bound by the caller.
#[derive(Debug, Clone)]
pub enum RowFilter {
    Tag { operator: FilterTagOperator, values: Vec<String> },
    Group { operator: FilterGroupOperator, group_id: Option<i64> },
    Artist { operator: FilterArtistOperator, values: Vec<String> },
    Vibe { operator: FilterVibeOperator, comparison: Option<FilterNumericOperator> },
    Note { operator: FilterNoteOperator, value: String, case_sensitive: bool },
    Metadata { parsed: bool },
    ImageDimension { field: FilterImageDimensionField, comparison: FilterNumericOperator },
    Orientation { orientation: FilterOrientation },
    GenerationText { field: FilterGenerationTextField, operator: FilterTextOperator, value: String, case_sensitive: bool },
    GenerationNumber { field: FilterGenerationNumberField, comparison: FilterNumericOperator },
}

/// A parameter of a compiled predicate. `Real` stands for the first value
/// of the numeric comparison of the filter at index `filter` or, with
/// `second`, for its second value (the first when it has none).
#[derive(Debug, Clone)]
pub enum FilterParam {
    Text(String),
    Integer(i64),
    Real { filter: usize, second: bool },
}

/// A parameter as a plain value: kind (0 text, 1 integer, 2 real), text,
/// integer or filter index, and the second-value flag.
pub open spec fn param_view(p: FilterParam) -> (nat, Seq<char>, int, bool) {
    match p {
        FilterParam::Text(s) => (0, s@, 0, false),
        FilterParam::Integer(i) => (1, Seq::empty(), i as int, false),
        FilterParam::Real { filter, second } => (2, Seq::empty(), filter as int, second),
    }
}

pub open spec fn param_views(ps: Seq<FilterParam>) -> Seq<(nat, Seq<char>, int, bool)> {
    ps.map_values(|p: FilterParam| param_view(p))
}

pub open spec fn text_param(s: Seq<char>) -> (nat, Seq<char>, int, bool) {
    (0, s, 0, false)
}

/// The placeholder of the `n`-th parameter.
pub open spec fn placeholder(n: nat) -> Seq<char> {
    seq!['?'] + decimal_text(n as int)
}

pub open spec fn tag_clause(n: nat) -> Seq<char> {
    "EXISTS (SELECT 1 FROM row_tags JOIN tags ON tags.id = row_tags.tag_id WHERE row_tags.row_id = rows.id AND tags.name = "@
        + placeholder(n) + " COLLATE BINARY)"@
}

pub open spec fn tag_in_clause(list: Seq<char>) -> Seq<char> {
    "EXISTS (SELECT 1 FROM row_tags JOIN tags ON tags.id = row_tags.tag_id WHERE row_tags.row_id = rows.id AND tags.name COLLATE BINARY IN ("@
        + list + "))"@
}

/// The SQL expression that lists a row's artist keys, one per line, with a
/// line feed before and after (older comma-separated lists included).
pub open spec fn artist_token_sql() -> Seq<char> {
    "CHAR(10) || LOWER(REPLACE(REPLACE(REPLACE(REPLACE(TRIM(COALESCE(rows.artists, '')), 'artist:', ''), CHAR(13), CHAR(10)), ',', CHAR(10)), '，', CHAR(10))) || CHAR(10)"@
}

pub open spec fn artist_clause(n: nat) -> Seq<char> {
    "INSTR("@ + artist_token_sql() + ", "@ + placeholder(n) + ") > 0"@
}

pub open spec fn artist_word() -> Seq<char> {
    "artist:"@
}

/// An artist filter value as the predicate looks it up: trimmed, lower-cased,
/// without an `artist:` prefix, trimmed again.
pub open spec fn artist_filter_key(v: Seq<char>) -> Seq<char> {
    let l = lowercase(trim(v));
    if l.len() >= 7 && l.take(7) == artist_word() {
        trim(l.skip(7))
    } else {
        trim(l)
    }
}

/// How the entries of a list filter become parameters and SQL parts.
#[derive(Debug, Clone, Copy, PartialEq, Eq, Structural)]
pub enum ListPart {
    TagClause,
    Placeholder,
    ArtistClause,
}

/// The SQL part for the entry bound to parameter `n`.
pub open spec fn part_sql(kind: ListPart, n: nat) -> Seq<char> {
    match kind {
        ListPart::TagClause => tag_clause(n),
        ListPart::Placeholder => placeholder(n),
        ListPart::ArtistClause => artist_clause(n),
    }
}

/// The parameter an entry is bound as.
pub open spec fn part_param(kind: ListPart, v: Seq<char>) -> (nat, Seq<char>, int, bool) {
    match kind {
        ListPart::ArtistClause => text_param(seq!['\n'] + artist_filter_key(v) + seq!['\n']),
        _ => text_param(v),
    }
}

/// The parts for `k` entries bound to parameters `base + 1 ..= base + k`.
pub open spec fn numbered(kind: ListPart, k: nat, base: nat) -> Seq<Seq<char>> {
    Seq::new(k, |i: int| part_sql(kind, (base + i + 1) as nat))
}

pub open spec fn entry_params(kind: ListPart, vs: Seq<Seq<char>>) -> Seq<(nat, Seq<char>, int, bool)> {
    vs.map_values(|v: Seq<char>| part_param(kind, v))
}

pub open spec fn numeric_sql(expr: Seq<char>, op: FilterNumericOperator, base: nat) -> Seq<char> {
    let first = placeholder(base + 1);
    match op {
        FilterNumericOperator::Equal => expr + " = "@ + first,
        FilterNumericOperator::NotEqual => expr + " != "@ + first,
        FilterNumericOperator::GreaterThan => expr + " > "@ + first,
        FilterNumericOperator::GreaterOrEqual => expr + " >= "@ + first,
        FilterNumericOperator::LessThan => expr + " < "@ + first,
        FilterNumericOperator::LessOrEqual => expr + " <= "@ + first,
        FilterNumericOperator::Between => {
            let second = placeholder(base + 2);
            expr + " BETWEEN MIN("@ + first + ", "@ + second + ") AND MAX("@ + first + ", "@ + second + ")"@
        },
    }
}

pub open spec fn numeric_params(op: FilterNumericOperator, index: int) -> Seq<(nat, Seq<char>, int, bool)> {
    if op is Between {
        seq![(2nat, Seq::<char>::empty(), index, false), (2nat, Seq::<char>::empty(), index, true)]
    } else {
        seq![(2nat, Seq::<char>::empty(), index, false)]
    }
}

pub open spec fn text_sql(expr: Seq<char>, op: FilterTextOperator, case_sensitive: bool, base: nat) -> Seq<char> {
    let e = if case_sensitive {
        "COALESCE("@ + expr + ", '')"@
    } else {
        "LOWER(COALESCE("@ + expr + ", ''))"@
    };
    match op {
        FilterTextOperator::Contains => "INSTR("@ + e + ", "@ + placeholder(base + 1) + ") > 0"@,
        FilterTextOperator::Equals => e + " = "@ + placeholder(base + 1),
    }
}

pub open spec fn text_value(value: Seq<char>, case_sensitive: bool) -> Seq<char> {
    if case_sensitive {
        value
    } else {
        lowercase(value)
    }
}

pub open spec fn dimension_sql(field: FilterImageDimensionField) -> Seq<char> {
    match field {
        FilterImageDimensionField::Width => "rows.image_width"@,
        FilterImageDimensionField::Height => "rows.image_height"@,
        FilterImageDimensionField::AspectRatio => "(CAST(rows.image_width AS REAL) / NULLIF(rows.image_height, 0))"@,
    }
}

pub open spec fn generation_text_sql(field: FilterGenerationTextField) -> Seq<char> {
    match field {
        FilterGenerationTextField::Model => "rows.generation_model"@,
        FilterGenerationTextField::Sampler => "rows.generation_sampler"@,
        FilterGenerationTextField::NoiseSchedule => "rows.generation_noise_schedule"@,
        FilterGenerationTextField::Seed => "rows.generation_seed"@,
    }
}

pub open spec fn generation_number_sql(field: FilterGenerationNumberField) -> Seq<char> {
    match field {
        FilterGenerationNumberField::Steps => "rows.generation_steps"@,
        FilterGenerationNumberField::Scale => "rows.generation_scale"@,
        FilterGenerationNumberField::CfgRescale => "rows.generation_cfg_rescale"@,
    }
}

pub open spec fn no_params() -> Seq<(nat, Seq<char>, int, bool)> {
    Seq::empty()
}

/// The predicate a filter compiles to, given how many parameters come
/// before it and its index, with the parameters it adds.
pub open spec fn filter_sql(f: RowFilter, base: nat, index: int) -> (Seq<char>, Seq<(nat, Seq<char>, int, bool)>) {
    match f {
        RowFilter::Tag { operator, values } => {
            let vs = list_entries(values@);
            let k = vs.len();
            match operator {
                FilterTagOperator::IsEmpty => (
                    "NOT EXISTS (SELECT 1 FROM row_tags WHERE row_tags.row_id = rows.id)"@,
                    no_params(),
                ),
                FilterTagOperator::HasAll => if k == 0 {
                    ("1"@, no_params())
                } else {
                    (join(numbered(ListPart::TagClause, k, base), " AND "@), entry_params(ListPart::TagClause, vs))
                },
                FilterTagOperator::HasAny => if k == 0 {
                    ("0"@, no_params())
                } else {
                    (tag_in_clause(join(numbered(ListPart::Placeholder, k, base), ", "@)), entry_params(ListPart::Placeholder, vs))
                },
                FilterTagOperator::HasNone => if k == 0 {
                    ("1"@, no_params())
                } else {
                    (
                        "NOT ("@ + tag_in_clause(join(numbered(ListPart::Placeholder, k, base), ", "@)) + ")"@,
                        entry_params(ListPart::Placeholder, vs),
                    )
                },
            }
        },
        RowFilter::Group { operator, group_id } => match operator {
            FilterGroupOperator::IsEmpty => ("rows.group_id IS NULL"@, no_params()),
            FilterGroupOperator::Is => match group_id {
                None => ("0"@, no_params()),
                Some(id) => ("rows.group_id = "@ + placeholder(base + 1), seq![(1nat, Seq::<char>::empty(), id as int, false)]),
            },
            FilterGroupOperator::IsNot => match group_id {
                None => ("1"@, no_params()),
                Some(id) => (
                    "(rows.group_id IS NULL OR rows.group_id != "@ + placeholder(base + 1) + ")"@,
                    seq![(1nat, Seq::<char>::empty(), id as int, false)],
                ),
            },
        },
        RowFilter::Artist { operator, values } => {
            let vs = list_entries(values@);
            let k = vs.len();
            let ps = entry_params(ListPart::ArtistClause, vs);
            let joined = join(numbered(ListPart::ArtistClause, k, base), " OR "@);
            match operator {
                FilterArtistOperator::IsEmpty => ("TRIM(COALESCE(rows.artists, '')) = ''"@, no_params()),
                FilterArtistOperator::IsSingle => (
                    "TRIM(COALESCE(rows.artists, '')) != '' AND INSTR(rows.artists, CHAR(10)) = 0 AND INSTR(rows.artists, ',') = 0 AND INSTR(rows.artists, '，') = 0"@,
                    no_params(),
                ),
                FilterArtistOperator::IsMultiple => (
                    "TRIM(COALESCE(rows.artists, '')) != '' AND (INSTR(rows.artists, CHAR(10)) > 0 OR INSTR(rows.artists, ',') > 0 OR INSTR(rows.artists, '，') > 0)"@,
                    no_params(),
                ),
                FilterArtistOperator::ContainsAny => if k == 0 {
                    ("0"@, no_params())
                } else {
                    ("("@ + joined + ")"@, ps)
                },
                FilterArtistOperator::ContainsNone => if k == 0 {
                    ("1"@, no_params())
                } else {
                    ("NOT ("@ + joined + ")"@, ps)
                },
            }
        },
        RowFilter::Vibe { operator, comparison } => match operator {
            FilterVibeOperator::HasAny => ("COALESCE(rows.vibe_reference_count, 0) > 0"@, no_params()),
            FilterVibeOperator::HasNone => ("COALESCE(rows.vibe_reference_count, 0) = 0"@, no_params()),
            FilterVibeOperator::Count => match comparison {
                None => ("0"@, no_params()),
                Some(op) => (numeric_sql("COALESCE(rows.vibe_reference_count, 0)"@, op, base), numeric_params(op, index)),
            },
        },
        RowFilter::Note { operator, value, case_sensitive } => match operator {
            FilterNoteOperator::IsEmpty => ("TRIM(COALESCE(rows.note, '')) = ''"@, no_params()),
            FilterNoteOperator::IsNotEmpty => ("TRIM(COALESCE(rows.note, '')) != ''"@, no_params()),
            FilterNoteOperator::Contains => (
                text_sql("rows.note"@, FilterTextOperator::Contains, case_sensitive, base),
                seq![text_param(text_value(trim(value@), case_sensitive))],
            ),
        },
        RowFilter::Metadata { parsed } => (
            if parsed {
                "rows.metadata_failed = 0"@
            } else {
                "rows.metadata_failed = 1"@
            },
            no_params(),
        ),
        RowFilter::ImageDimension { field, comparison } => (
            numeric_sql(dimension_sql(field), comparison, base),
            numeric_params(comparison, index),
        ),
        RowFilter::Orientation { orientation } => (
            match orientation {
                FilterOrientation::Landscape => "rows.image_width > rows.image_height"@,
                FilterOrientation::Portrait => "rows.image_height > rows.image_width"@,
                FilterOrientation::Square => "rows.image_width = rows.image_height"@,
            },
            no_params(),
        ),
        RowFilter::GenerationText { field, operator, value, case_sensitive } => (
            text_sql(generation_text_sql(field), operator, case_sensitive, base),
            seq![text_param(text_value(trim(value@), case_sensitive))],
        ),
        RowFilter::GenerationNumber { field, comparison } => (
            numeric_sql(generation_number_sql(field), comparison, base),
            numeric_params(comparison, index),
        ),
    }
}

fn lit(out: &mut Vec<char>, s: &str)
    ensures
        final(out)@ == old(out)@ + s@,
{
    append_chars(out, &chars_of(s));
}

fn lit_chars(s: &str) -> (r: Vec<char>)
    ensures
        r@ == s@,
{
    chars_of(s)
}

/// The placeholder of parameter `n`.
pub fn placeholder_chars(n: usize) -> (r: Vec<char>)
    ensures
        r@ == placeholder(n as nat),
{
    let mut out: Vec<char> = Vec::new();
    out.push('?');
    let digits = unsigned_digits(n as u64);
    append_chars(&mut out, &digits);
    assert(out@ =~= placeholder(n as nat));
    out
}

fn push_param(params: &mut Vec<FilterParam>, p: FilterParam) -> (n: usize)
    ensures
        final(params)@ == old(params)@.push(p),
        n == final(params)@.len(),
{
    params.push(p);
    params.len()
}

proof fn lemma_param_views_push(ps: Seq<FilterParam>, p: FilterParam)
    ensures
        param_views(ps.push(p)) == param_views(ps).push(param_view(p)),
{
    assert(param_views(ps.push(p)) =~= param_views(ps).push(param_view(p)));
}

/// The SQL expression listing a row's artist keys (see `artist_token_sql`).
pub fn artist_token_expression() -> (r: &'static str)
    ensures
        r@ == artist_token_sql(),
{
    "CHAR(10) || LOWER(REPLACE(REPLACE(REPLACE(REPLACE(TRIM(COALESCE(rows.artists, '')), 'artist:', ''), CHAR(13), CHAR(10)), ',', CHAR(10)), '，', CHAR(10))) || CHAR(10)"
}

fn artist_key_text(v: &String) -> (r: Vec<char>)
    ensures
        r@ == seq!['\n'] + artist_filter_key(v@) + seq!['\n'],
{
    let l = lowercase_chars(&trim_chars(&chars_of(v.as_str())));
    let word = lit_chars("artist:");
    proof {
        reveal_strlit("artist:");
    }
    assert(word@.len() == 7);
    let mut has = l.len() >= 7;
    if has {
        let mut k: usize = 0;
        while k < 7
            invariant
                l.len() >= 7,
                word@ == artist_word(),
                word@.len() == 7,
                k <= 7,
                has == (forall|j: int| 0 <= j < k ==> l@[j] == word@[j]),
            decreases 7 - k,
        {
            if l[k] != word[k] {
                has = false;
            }
            k = k + 1;
        }
        assert(has == (l@.take(7) =~= artist_word()));
    }
    let key = if has {
        trim_chars(&crate::text::sub_chars(&l, 7, l.len()))
    } else {
        trim_chars(&l)
    };
    proof {
        if has {
            assert(l@.subrange(7, l@.len() as int) =~= l@.skip(7));
        }
    }
    let mut out: Vec<char> = Vec::new();
    out.push('\n');
    append_chars(&mut out, &key);
    out.push('\n');
    assert(out@ =~= seq!['\n'] + artist_filter_key(v@) + seq!['\n']);
    out
}

/// Binds each entry as a parameter and makes its SQL part.
fn numbered_parts(values: &Vec<String>, kind: ListPart, params: &mut Vec<FilterParam>) -> (r: Vec<Vec<char>>)
    ensures
        views(r@) == numbered(kind, values@.len() as nat, old(params)@.len() as nat),
        param_views(final(params)@) == param_views(old(params)@) + entry_params(kind, string_views(values@)),
{
    let ghost base = params@.len() as nat;
    let ghost start = param_views(params@);
    let mut parts: Vec<Vec<char>> = Vec::new();
    let mut i: usize = 0;
    assert(entry_params(kind, string_views(values@)).take(0) =~= Seq::<(nat, Seq<char>, int, bool)>::empty());
    assert(start + Seq::<(nat, Seq<char>, int, bool)>::empty() =~= start);
    while i < values.len()
        invariant
            i <= values.len(),
            params@.len() == base + i,
            param_views(params@) == start + entry_params(kind, string_views(values@)).take(i as int),
            views(parts@) == numbered(kind, values@.len() as nat, base).take(i as int),
        decreases values.len() - i,
    {
        let p = match kind {
            ListPart::ArtistClause => FilterParam::Text(string_of(&artist_key_text(&values[i]))),
            _ => FilterParam::Text(values[i].clone()),
        };
        assert(param_view(p) == part_param(kind, values@[i as int]@));
        let ghost before = params@;
        let n = push_param(params, p);
        proof {
            lemma_param_views_push(before, p);
        }
        let part = match kind {
            ListPart::TagClause => {
                let mut c = lit_chars(
                    "EXISTS (SELECT 1 FROM row_tags JOIN tags ON tags.id = row_tags.tag_id WHERE row_tags.row_id = rows.id AND tags.name = ",
                );
                append_chars(&mut c, &placeholder_chars(n));
                lit(&mut c, " COLLATE BINARY)");
                c
            },
            ListPart::Placeholder => placeholder_chars(n),
            ListPart::ArtistClause => {
                let mut c = lit_chars("INSTR(");
                lit(&mut c, artist_token_expression());
                lit(&mut c, ", ");
                append_chars(&mut c, &placeholder_chars(n));
                lit(&mut c, ") > 0");
                c
            },
        };
        assert(part@ =~= part_sql(kind, n as nat));
        let ghost pb = views(parts@);
        let ghost pv = part@;
        parts.push(part);
        assert(views(parts@) =~= pb.push(pv));
        i = i + 1;
        assert(numbered(kind, values@.len() as nat, base).take(i as int) =~= numbered(
            kind,
            values@.len() as nat,
            base,
        ).take(i - 1).push(part_sql(kind, (base + i) as nat)));
        assert(entry_params(kind, string_views(values@)).take(i as int) =~= entry_params(
            kind,
            string_views(values@),
        ).take(i - 1).push(part_param(kind, values@[i - 1]@)));
    }
    assert(numbered(kind, values@.len() as nat, base).take(i as int) =~= numbered(kind, values@.len() as nat, base));
    assert(entry_params(kind, string_views(values@)).take(i as int) =~= entry_params(kind, string_views(values@)));
    parts
}

/// The entries of list filter values (see `list_entries`).
pub fn normalized_values(values: &Vec<String>) -> (r: Vec<String>)
    ensures
        string_views(r@) == list_entries(values@),
{
    let r = normalized_strings(values);
    assert(string_views(values@) == values@.map_values(|s: String| s@));
    assert(string_views(r@) == r@.map_values(|s: String| s@));
    r
}

fn numeric_predicate(expr: &str, op: FilterNumericOperator, index: usize, params: &mut Vec<FilterParam>) -> (r: Vec<char>)
    ensures
        r@ == numeric_sql(expr@, op, old(params)@.len() as nat),
        param_views(final(params)@) == param_views(old(params)@) + numeric_params(op, index as int),
{
    let ghost before = params@;
    let n = push_param(params, FilterParam::Real { filter: index, second: false });
    proof {
        lemma_param_views_push(before, FilterParam::Real { filter: index, second: false });
    }
    let first = placeholder_chars(n);
    let mut out = lit_chars(expr);
    match op {
        FilterNumericOperator::Equal => {
            lit(&mut out, " = ");
            append_chars(&mut out, &first);
        },
        FilterNumericOperator::NotEqual => {
            lit(&mut out, " != ");
            append_chars(&mut out, &first);
        },
        FilterNumericOperator::GreaterThan => {
            lit(&mut out, " > ");
            append_chars(&mut out, &first);
        },
        FilterNumericOperator::GreaterOrEqual => {
            lit(&mut out, " >= ");
            append_chars(&mut out, &first);
        },
        FilterNumericOperator::LessThan => {
            lit(&mut out, " < ");
            append_chars(&mut out, &first);
        },
        FilterNumericOperator::LessOrEqual => {
            lit(&mut out, " <= ");
            append_chars(&mut out, &first);
        },
        FilterNumericOperator::Between => {
            let ghost mid = params@;
            let m = push_param(params, FilterParam::Real { filter: index, second: true });
            proof {
                lemma_param_views_push(mid, FilterParam::Real { filter: index, second: true });
            }
            let second = placeholder_chars(m);
            lit(&mut out, " BETWEEN MIN(");
            append_chars(&mut out, &first);
            lit(&mut out, ", ");
            append_chars(&mut out, &second);
            lit(&mut out, ") AND MAX(");
            append_chars(&mut out, &first);
            lit(&mut out, ", ");
            append_chars(&mut out, &second);
            lit(&mut out, ")");
        },
    }
    assert(out@ =~= numeric_sql(expr@, op, before.len() as nat));
    assert(param_views(params@) =~= param_views(before) + numeric_params(op, index as int));
    out
}

fn text_predicate(
    expr: &str,
    op: FilterTextOperator,
    value: &String,
    case_sensitive: bool,
    params: &mut Vec<FilterParam>,
) -> (r: Vec<char>)
    ensures
        r@ == text_sql(expr@, op, case_sensitive, old(params)@.len() as nat),
        param_views(final(params)@) == param_views(old(params)@).push(
            text_param(text_value(trim(value@), case_sensitive)),
        ),
{
    let t = trim_chars(&chars_of(value.as_str()));
    let v = if case_sensitive {
        t
    } else {
        lowercase_chars(&t)
    };
    let ghost before = params@;
    let p = FilterParam::Text(string_of(&v));
    let n = push_param(params, p);
    proof {
        lemma_param_views_push(before, p);
    }
    let mut e: Vec<char> = if case_sensitive {
        lit_chars("COALESCE(")
    } else {
        lit_chars("LOWER(COALESCE(")
    };
    lit(&mut e, expr);
    if case_sensitive {
        lit(&mut e, ", '')");
    } else {
        lit(&mut e, ", ''))");
    }
    let ph = placeholder_chars(n);
    let out = match op {
        FilterTextOperator::Contains => {
            let mut o = lit_chars("INSTR(");
            append_chars(&mut o, &e);
            lit(&mut o, ", ");
            append_chars(&mut o, &ph);
            lit(&mut o, ") > 0");
            o
        },
        FilterTextOperator::Equals => {
            let mut o = e;
            lit(&mut o, " = ");
            append_chars(&mut o, &ph);
            o
        },
    };
    assert(out@ =~= text_sql(expr@, op, case_sensitive, before.len() as nat));
    out
}

fn sql(s: &str) -> (r: Vec<char>)
    ensures
        r@ == s@,
{
    chars_of(s)
}

fn join_with(parts: &Vec<Vec<char>>, sep: &str) -> (r: Vec<char>)
    ensures
        r@ == join(views(parts@), sep@),
{
    join_chars(parts, &chars_of(sep))
}

fn wrap(head: &str, body: &Vec<char>, tail: &str) -> (r: Vec<char>)
    ensures
        r@ == head@ + body@ + tail@,
{
    let mut o = lit_chars(head);
    append_chars(&mut o, body);
    lit(&mut o, tail);
    o
}

/// Compiles the filter at `index` into its SQL predicate, binding its
/// parameters after those already in `params` (see `filter_sql`).
pub fn compile_filter(filter: &RowFilter, index: usize, params: &mut Vec<FilterParam>) -> (r: String)
    ensures
        r@ == filter_sql(*filter, old(params)@.len() as nat, index as int).0,
        param_views(final(params)@) == param_views(old(params)@) + filter_sql(
            *filter,
            old(params)@.len() as nat,
            index as int,
        ).1,
{
    let ghost base = params@.len() as nat;
    let ghost start = param_views(params@);
    let out: Vec<char> = match filter {
        RowFilter::Tag { operator, values } => {
            let vs = normalized_values(values);
            match operator {
                FilterTagOperator::IsEmpty => sql("NOT EXISTS (SELECT 1 FROM row_tags WHERE row_tags.row_id = rows.id)"),
                FilterTagOperator::HasAll => {
                    if vs.len() == 0 {
                        sql("1")
                    } else {
                        let parts = numbered_parts(&vs, ListPart::TagClause, params);
                        join_with(&parts, " AND ")
                    }
                },
                FilterTagOperator::HasAny => {
                    if vs.len() == 0 {
                        sql("0")
                    } else {
                        let parts = numbered_parts(&vs, ListPart::Placeholder, params);
                        let list = join_with(&parts, ", ");
                        wrap(
                            "EXISTS (SELECT 1 FROM row_tags JOIN tags ON tags.id = row_tags.tag_id WHERE row_tags.row_id = rows.id AND tags.name COLLATE BINARY IN (",
                            &list,
                            "))",
                        )
                    }
                },
                FilterTagOperator::HasNone => {
                    if vs.len() == 0 {
                        sql("1")
                    } else {
                        let parts = numbered_parts(&vs, ListPart::Placeholder, params);
                        let list = join_with(&parts, ", ");
                        let exists = wrap(
                            "EXISTS (SELECT 1 FROM row_tags JOIN tags ON tags.id = row_tags.tag_id WHERE row_tags.row_id = rows.id AND tags.name COLLATE BINARY IN (",
                            &list,
                            "))",
                        );
                        wrap("NOT (", &exists, ")")
                    }
                },
            }
        },
        RowFilter::Group { operator, group_id } => match operator {
            FilterGroupOperator::IsEmpty => sql("rows.group_id IS NULL"),
            FilterGroupOperator::Is => match group_id {
                None => sql("0"),
                Some(id) => {
                    let ghost before = params@;
                    let n = push_param(params, FilterParam::Integer(*id));
                    proof {
                        lemma_param_views_push(before, FilterParam::Integer(*id));
                    }
                    let mut o = sql("rows.group_id = ");
                    append_chars(&mut o, &placeholder_chars(n));
                    o
                },
            },
            FilterGroupOperator::IsNot => match group_id {
                None => sql("1"),
                Some(id) => {
                    let ghost before = params@;
                    let n = push_param(params, FilterParam::Integer(*id));
                    proof {
                        lemma_param_views_push(before, FilterParam::Integer(*id));
                    }
                    wrap("(rows.group_id IS NULL OR rows.group_id != ", &placeholder_chars(n), ")")
                },
            },
        },
        RowFilter::Artist { operator, values } => {
            let vs = normalized_values(values);
            match operator {
                FilterArtistOperator::IsEmpty => sql("TRIM(COALESCE(rows.artists, '')) = ''"),
                FilterArtistOperator::IsSingle => sql(
                    "TRIM(COALESCE(rows.artists, '')) != '' AND INSTR(rows.artists, CHAR(10)) = 0 AND INSTR(rows.artists, ',') = 0 AND INSTR(rows.artists, '，') = 0",
                ),
                FilterArtistOperator::IsMultiple => sql(
                    "TRIM(COALESCE(rows.artists, '')) != '' AND (INSTR(rows.artists, CHAR(10)) > 0 OR INSTR(rows.artists, ',') > 0 OR INSTR(rows.artists, '，') > 0)",
                ),
                FilterArtistOperator::ContainsAny => {
                    if vs.len() == 0 {
                        sql("0")
                    } else {
                        let parts = numbered_parts(&vs, ListPart::ArtistClause, params);
                        wrap("(", &join_with(&parts, " OR "), ")")
                    }
                },
                FilterArtistOperator::ContainsNone => {
                    if vs.len() == 0 {
                        sql("1")
                    } else {
                        let parts = numbered_parts(&vs, ListPart::ArtistClause, params);
                        wrap("NOT (", &join_with(&parts, " OR "), ")")
                    }
                },
            }
        },
        RowFilter::Vibe { operator, comparison } => match operator {
            FilterVibeOperator::HasAny => sql("COALESCE(rows.vibe_reference_count, 0) > 0"),
            FilterVibeOperator::HasNone => sql("COALESCE(rows.vibe_reference_count, 0) = 0"),
            FilterVibeOperator::Count => match comparison {
                None => sql("0"),
                Some(op) => numeric_predicate("COALESCE(rows.vibe_reference_count, 0)", *op, index, params),
            },
        },
        RowFilter::Note { operator, value, case_sensitive } => match operator {
            FilterNoteOperator::IsEmpty => sql("TRIM(COALESCE(rows.note, '')) = ''"),
            FilterNoteOperator::IsNotEmpty => sql("TRIM(COALESCE(rows.note, '')) != ''"),
            FilterNoteOperator::Contains => text_predicate(
                "rows.note",
                FilterTextOperator::Contains,
                value,
                *case_sensitive,
                params,
            ),
        },
        RowFilter::Metadata { parsed } => if *parsed {
            sql("rows.metadata_failed = 0")
        } else {
            sql("rows.metadata_failed = 1")
        },
        RowFilter::ImageDimension { field, comparison } => {
            let expr = match field {
                FilterImageDimensionField::Width => "rows.image_width",
                FilterImageDimensionField::Height => "rows.image_height",
                FilterImageDimensionField::AspectRatio => "(CAST(rows.image_width AS REAL) / NULLIF(rows.image_height, 0))",
            };
            numeric_predicate(expr, *comparison, index, params)
        },
        RowFilter::Orientation { orientation } => match orientation {
            FilterOrientation::Landscape => sql("rows.image_width > rows.image_height"),
            FilterOrientation::Portrait => sql("rows.image_height > rows.image_width"),
            FilterOrientation::Square => sql("rows.image_width = rows.image_height"),
        },
        RowFilter::GenerationText { field, operator, value, case_sensitive } => {
            let expr = match field {
                FilterGenerationTextField::Model => "rows.generation_model",
                FilterGenerationTextField::Sampler => "rows.generation_sampler",
                FilterGenerationTextField::NoiseSchedule => "rows.generation_noise_schedule",
                FilterGenerationTextField::Seed => "rows.generation_seed",
            };
            text_predicate(expr, *operator, value, *case_sensitive, params)
        },
        RowFilter::GenerationNumber { field, comparison } => {
            let expr = match field {
                FilterGenerationNumberField::Steps => "rows.generation_steps",
                FilterGenerationNumberField::Scale => "rows.generation_scale",
                FilterGenerationNumberField::CfgRescale => "rows.generation_cfg_rescale",
            };
            numeric_predicate(expr, *comparison, index, params)
        },
    };
    proof {
        let f = filter_sql(*filter, base, index as int);
        if f.1.len() == 0 {
            assert(start + f.1 =~= start);
        }
        if f.1.len() == 1 {
            assert(start + f.1 =~= start.push(f.1[0]));
        }
    }
    string_of(&out)
}

/// The filter predicates joined one by one to `pred` with AND, each filter
/// numbering its parameters after those bound before it.
pub open spec fn all_filters_sql(pred: Seq<char>, filters: Seq<RowFilter>, base: nat, index: int) -> (Seq<char>, Seq<(nat, Seq<char>, int, bool)>)
    decreases filters.len(),
{
    if filters.len() == 0 {
        (pred, Seq::empty())
    } else {
        let (sql, ps) = filter_sql(filters[0], base, index);
        let (out, rest) = all_filters_sql(
            "("@ + pred + ") AND ("@ + sql + ")"@,
            filters.skip(1),
            base + ps.len(),
            index + 1,
        );
        (out, ps + rest)
    }
}

/// Joins the predicates of `filters` to `predicate` (see `all_filters_sql`).
pub fn append_library_filters(predicate: String, filters: &Vec<RowFilter>, params: &mut Vec<FilterParam>) -> (r: String)
    ensures
        r@ == all_filters_sql(predicate@, filters@, old(params)@.len() as nat, 0).0,
        param_views(final(params)@) == param_views(old(params)@) + all_filters_sql(
            predicate@,
            filters@,
            old(params)@.len() as nat,
            0,
        ).1,
{
    let ghost goal = all_filters_sql(predicate@, filters@, params@.len() as nat, 0);
    let ghost start = param_views(params@);
    let mut pred = predicate;
    let mut i: usize = 0;
    assert(filters@.skip(0) =~= filters@);
    assert(start + goal.1 =~= param_views(params@) + goal.1);
    while i < filters.len()
        invariant
            i <= filters.len(),
            ({
                let (out, rest) = all_filters_sql(pred@, filters@.skip(i as int), params@.len() as nat, i as int);
                &&& out == goal.0
                &&& param_views(params@) + rest == start + goal.1
            }),
        decreases filters.len() - i,
    {
        let ghost before = param_views(params@);
        let ghost b0 = params@.len() as nat;
        let ghost p0 = pred@;
        let compiled = compile_filter(&filters[i], i, params);
        let mut out = lit_chars("(");
        append_chars(&mut out, &chars_of(pred.as_str()));
        lit(&mut out, ") AND (");
        append_chars(&mut out, &chars_of(compiled.as_str()));
        lit(&mut out, ")");
        proof {
            let rest_filters = filters@.skip(i as int);
            assert(rest_filters[0] == filters@[i as int]);
            assert(rest_filters.skip(1) =~= filters@.skip(i + 1));
            let (sql, ps) = filter_sql(filters@[i as int], b0, i as int);
            assert(compiled@ == sql);
            assert(out@ =~= "("@ + p0 + ") AND ("@ + sql + ")"@);
            assert(param_views(params@).len() == params@.len());
            assert(before.len() == b0);
            let (o1, r1) = all_filters_sql(out@, filters@.skip(i + 1), (b0 + ps.len()) as nat, i + 1);
            assert(all_filters_sql(p0, rest_filters, b0, i as int) == (o1, ps + r1));
            assert(param_views(params@) + r1 =~= before + (ps + r1));
        }
        pred = string_of(&out);
        i = i + 1;
    }
    assert(filters@.skip(i as int) =~= Seq::<RowFilter>::empty());
    assert(param_views(params@) + Seq::<(nat, Seq<char>, int, bool)>::empty() =~= param_views(params@));
    pred
}

/// The image width column of `rows` as SQL names it.
pub open spec fn width_column() -> Seq<char> {
    "rows.image_width"@
}

/// The image height column of `rows` as SQL names it.
pub open spec fn height_column() -> Seq<char> {
    "rows.image_height"@
}

/// The value of the image column named at the start of `t` in a row of
/// width `w` and height `h`, with the length of the name.
pub open spec fn leading_column(t: Seq<char>, w: int, h: int) -> Option<(int, int)> {
    if t.len() >= 17 && t.take(17) == height_column() {
        Some((h, 17))
    } else if t.len() >= 16 && t.take(16) == width_column() {
        Some((w, 16))
    } else {
        None
    }
}

/// The SQL comparison operator at the start of `t` (`=`, `<>`, `!=`, `<`,
/// `<=`, `>`, `>=`) as a relation on integers, with its length.
pub open spec fn leading_operator(t: Seq<char>) -> Option<(spec_fn(int, int) -> bool, int)> {
    if t.len() >= 2 && t[0] == '>' && t[1] == '=' {
        Some((|x: int, y: int| x >= y, 2))
    } else if t.len() >= 2 && t[0] == '<' && t[1] == '=' {
        Some((|x: int, y: int| x <= y, 2))
    } else if t.len() >= 2 && ((t[0] == '<' && t[1] == '>') || (t[0] == '!' && t[1] == '=')) {
        Some((|x: int, y: int| x != y, 2))
    } else if t.len() >= 1 && t[0] == '=' {
        Some((|x: int, y: int| x == y, 1))
    } else if t.len() >= 1 && t[0] == '>' {
        Some((|x: int, y: int| x > y, 1))
    } else if t.len() >= 1 && t[0] == '<' {
        Some((|x: int, y: int| x < y, 1))
    } else {
        None
    }
}

/// What a SQL predicate `a op b`, comparing the image width and height
/// columns, says of a row of width `w` and height `h`; `None` when `t` is
/// not such a comparison.
pub open spec fn column_comparison_holds(t: Seq<char>, w: int, h: int) -> Option<bool> {
    match leading_column(t, w, h) {
        Some((x, i)) => {
            let r1 = t.skip(i);
            if r1.len() >= 1 && r1[0] == ' ' {
                match leading_operator(r1.skip(1)) {
                    Some((op, j)) => {
                        let r2 = r1.skip(1 + j);
                        if r2.len() >= 1 && r2[0] == ' ' {
                            let r3 = r2.skip(1);
                            if r3 == width_column() {
                                Some(op(x, w))
                            } else if r3 == height_column() {
                                Some(op(x, h))
                            } else {
                                None
                            }
                        } else {
                            None
                        }
                    },
                    None => None,
                }
            } else {
                None
            }
        },
        None => None,
    }
}

/// The three comparison texts of the orientation filters, taken apart.
proof fn lemma_orientation_texts()
    ensures
        "rows.image_width > rows.image_height"@ == width_column() + " > "@ + height_column(),
        "rows.image_height > rows.image_width"@ == height_column() + " > "@ + width_column(),
        "rows.image_width = rows.image_height"@ == width_column() + " = "@ + height_column(),
        width_column().len() == 16,
        height_column().len() == 17,
        width_column()[11] == 'w',
        height_column()[11] == 'h',
{
    reveal_strlit("rows.image_width > rows.image_height");
    reveal_strlit("rows.image_height > rows.image_width");
    reveal_strlit("rows.image_width = rows.image_height");
    reveal_strlit("rows.image_width");
    reveal_strlit("rows.image_height");
    reveal_strlit(" > ");
    reveal_strlit(" = ");
    assert("rows.image_width > rows.image_height"@ =~= width_column() + " > "@ + height_column());
    assert("rows.image_height > rows.image_width"@ =~= height_column() + " > "@ + width_column());
    assert("rows.image_width = rows.image_height"@ =~= width_column() + " = "@ + height_column());
}

/// `a op b` with `a` and `b` image columns and a one-character operator
/// compares the two columns as `op_char` says.
proof fn lemma_comparison_of(a: Seq<char>, op_char: char, b: Seq<char>, w: int, h: int)
    requires
        a == width_column() || a == height_column(),
        b == width_column() || b == height_column(),
        op_char == '=' || op_char == '>',
        width_column().len() == 16,
        height_column().len() == 17,
        width_column()[11] == 'w',
        height_column()[11] == 'h',
    ensures
        ({
            let x = if a == width_column() { w } else { h };
            let y = if b == width_column() { w } else { h };
            column_comparison_holds(a + seq![' ', op_char, ' '] + b, w, h) == Some(
                if op_char == '=' { x == y } else { x > y },
            )
        }),
{
    let t = a + seq![' ', op_char, ' '] + b;
    let i = a.len() as int;
    if a == width_column() {
        assert(t.take(16) =~= a);
        assert(t.len() >= 17 ==> t.take(17)[11] == 'w');
        assert(t.len() >= 17 ==> t.take(17) != height_column());
    } else {
        assert(t.take(17) =~= a);
    }
    assert(leading_column(t, w, h) == Some((if a == width_column() { w } else { h }, i)));
    let r1 = t.skip(i);
    assert(r1 =~= seq![' ', op_char, ' '] + b);
    assert(r1.skip(1) =~= seq![op_char, ' '] + b);
    let r2 = r1.skip(2);
    assert(r2 =~= seq![' '] + b);
    assert(r2.skip(1) =~= b);
}

/// What the orientation filters select: landscape the rows wider than high,
/// portrait the rows higher than wide, square the rows whose width equals
/// their height. Each compiles to a comparison of the two image columns
/// that holds of a row exactly then, so no row passes two of them.
pub proof fn lemma_orientation_filters_select(o: FilterOrientation, base: nat, index: int, w: int, h: int)
    ensures
        column_comparison_holds(filter_sql(RowFilter::Orientation { orientation: o }, base, index).0, w, h)
            == Some(
            match o {
                FilterOrientation::Landscape => w > h,
                FilterOrientation::Portrait => h > w,
                FilterOrientation::Square => w == h,
            },
        ),
{
    lemma_orientation_texts();
    reveal_strlit(" > ");
    reveal_strlit(" = ");
    assert(" > "@ =~= seq![' ', '>', ' ']);
    assert(" = "@ =~= seq![' ', '=', ' ']);
    match o {
        FilterOrientation::Landscape => {
            lemma_comparison_of(width_column(), '>', height_column(), w, h);
        },
        FilterOrientation::Portrait => {
            lemma_comparison_of(height_column(), '>', width_column(), w, h);
        },
        FilterOrientation::Square => {
            lemma_comparison_of(width_column(), '=', height_column(), w, h);
        },
    }
}

} // verus!
