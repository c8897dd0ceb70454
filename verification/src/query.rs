//! Library pages: the query a page is asked with and what it returns.
use vstd::prelude::*;

use crate::name_index::{compare_chars, lemma_seq_lt_total, lemma_seq_lt_transitive, seq_lt};
use crate::prompt_tokens::strings_of;
use crate::text::{
    append_chars, chars_eq, chars_of, contains_chars, lines_of, lowercase, lowercase_chars, split_lines, string_chars,
    string_of, string_views, trim, trim_chars, views,
};

verus! {

/// The largest page size a query may ask for.
pub const MAX_PAGE_SIZE: u32 = 500;

/// How several filter tags combine.
#[derive(Debug, Clone, Copy, PartialEq, Eq, Structural)]
pub enum TagMatchMode {
    And,
    Or,
}

/// Which text rows are deduplicated by.
#[derive(Debug, Clone, Copy, PartialEq, Eq, Structural, Default)]
pub enum DedupeMode {
    /// No deduplication.
    #[default]
    Disabled,
    PositivePrompt,
    Artists,
}

/// A request for one page of library rows.
#[derive(Debug, Clone, PartialEq, Eq)]
pub struct RowQuery {
    pub offset: u64,
    pub limit: u32,
    pub tags: Vec<String>,
    pub tag_mode: TagMatchMode,
    pub dedupe: DedupeMode,
    pub single_artist_only: bool,
    pub group_view: bool,
    pub hide_grouped: bool,
    pub search: String,
}

/// One library row as a page shows it.
#[derive(Debug, Clone, PartialEq, Eq)]
pub struct RowRecord {
    pub id: i64,
    pub batch_id: i64,
    pub source_ordinal: u32,
    pub time: Option<String>,
    pub positive_prompt: Option<String>,
    pub character_prompt: Option<String>,
    pub negative_prompt: Option<String>,
    pub note: Option<String>,
    pub artists: Option<String>,
    pub image_folder: Option<String>,
    pub image_path: Option<String>,
    pub stored_image_path: Option<String>,
    pub metadata_failed: bool,
    pub group_id: Option<i64>,
    pub group_name: Option<String>,
    pub tags: Vec<String>,
}

/// One page of rows out of `total_count`.
#[derive(Debug, Clone, PartialEq, Eq)]
pub struct RowPage {
    pub rows: Vec<RowRecord>,
    pub total_count: u64,
    pub offset: u64,
    pub limit: u32,
}

impl RowPage {
    /// Whether rows remain after this page.
    pub fn has_more(&self) -> (r: bool)
        ensures
            r == (self.offset + self.rows.len() < self.total_count),
    {
        let len = self.rows.len() as u64;
        let end = if self.offset > u64::MAX - len {
            u64::MAX
        } else {
            self.offset + len
        };
        end < self.total_count
    }
}

/// A tag with the number of rows carrying it.
#[derive(Debug, Clone, PartialEq, Eq)]
pub struct TagSummary {
    pub name: String,
    pub row_count: u64,
}

/// Rows sharing one dedupe key.
#[derive(Debug, Clone, PartialEq, Eq)]
pub struct DedupeCluster {
    pub key: String,
    pub member_count: u64,
    pub alias: Option<String>,
}

/// What `format!("{:?}", ..)` writes for a list of strings: the quoted,
/// escaped strings between brackets, separated by `, `.
pub uninterp spec fn debug_list_text(items: Seq<Seq<char>>) -> Seq<char>;

/// Formats the list with `Debug`; the text is named by `debug_list_text`.
#[verifier::external_body]
fn debug_list(items: &Vec<String>) -> (r: String)
    ensures
        r@ == debug_list_text(string_views(items@)),
{
    format!("{:?}", items)
}

/// The name `Debug` writes for a tag mode.
pub open spec fn tag_mode_name(m: TagMatchMode) -> Seq<char> {
    match m {
        TagMatchMode::And => "And"@,
        TagMatchMode::Or => "Or"@,
    }
}

/// The name a dedupe mode has in cache keys (no deduplication is `None`).
pub open spec fn dedupe_name(m: DedupeMode) -> Seq<char> {
    match m {
        DedupeMode::Disabled => "None"@,
        DedupeMode::PositivePrompt => "PositivePrompt"@,
        DedupeMode::Artists => "Artists"@,
    }
}

pub open spec fn bool_text(b: bool) -> Seq<char> {
    if b {
        "true"@
    } else {
        "false"@
    }
}

pub open spec fn key_sep() -> Seq<char> {
    seq!['\u{1}']
}

/// The key that caches a query's filtered rows: the normalised tags, the
/// modes and flags and the trimmed, lower-cased search, separated by U+0001.
pub open spec fn cache_key(query: RowQuery, tags: Seq<Seq<char>>) -> Seq<char> {
    debug_list_text(tags) + key_sep() + tag_mode_name(query.tag_mode) + key_sep() + dedupe_name(query.dedupe)
        + key_sep() + bool_text(query.single_artist_only) + key_sep() + bool_text(query.group_view) + key_sep()
        + bool_text(query.hide_grouped) + key_sep() + lowercase(trim(query.search@))
}

fn push_str(out: &mut Vec<char>, s: &str)
    ensures
        final(out)@ == old(out)@ + s@,
{
    append_chars(out, &chars_of(s));
}

fn push_bool(out: &mut Vec<char>, b: bool)
    ensures
        final(out)@ == old(out)@ + bool_text(b),
{
    if b {
        push_str(out, "true");
    } else {
        push_str(out, "false");
    }
}

/// The cache key of a query (see `cache_key`).
pub fn query_cache_key(query: &RowQuery, normalized_tags: &Vec<String>) -> (r: String)
    ensures
        r@ == cache_key(*query, string_views(normalized_tags@)),
{
    let mut out = chars_of(debug_list(normalized_tags).as_str());
    out.push('\u{1}');
    match query.tag_mode {
        TagMatchMode::And => push_str(&mut out, "And"),
        TagMatchMode::Or => push_str(&mut out, "Or"),
    }
    out.push('\u{1}');
    match query.dedupe {
        DedupeMode::Disabled => push_str(&mut out, "None"),
        DedupeMode::PositivePrompt => push_str(&mut out, "PositivePrompt"),
        DedupeMode::Artists => push_str(&mut out, "Artists"),
    }
    out.push('\u{1}');
    push_bool(&mut out, query.single_artist_only);
    out.push('\u{1}');
    push_bool(&mut out, query.group_view);
    out.push('\u{1}');
    push_bool(&mut out, query.hide_grouped);
    out.push('\u{1}');
    let search = lowercase_chars(&trim_chars(&chars_of(query.search.as_str())));
    append_chars(&mut out, &search);
    assert(out@ =~= cache_key(*query, string_views(normalized_tags@)));
    string_of(&out)
}

/// The predicate that keeps the rows carrying all (`And`) or any (`Or`) of
/// the filter tags; with no filter tags it keeps every row.
pub open spec fn tag_filter_sql(mode: TagMatchMode) -> Seq<char> {
    match mode {
        TagMatchMode::And => "(SELECT COUNT(*) FROM query_filter_tags) = 0
             OR rows.id IN (
                 SELECT row_tags.row_id
                 FROM row_tags
                 JOIN tags ON tags.id = row_tags.tag_id
                 JOIN query_filter_tags ON query_filter_tags.name = tags.name COLLATE BINARY
                 GROUP BY row_tags.row_id
                 HAVING COUNT(*) = (SELECT COUNT(*) FROM query_filter_tags))"@,
        TagMatchMode::Or => "(SELECT COUNT(*) FROM query_filter_tags) = 0
             OR rows.id IN (
                 SELECT row_tags.row_id
                 FROM row_tags
                 JOIN tags ON tags.id = row_tags.tag_id
                 JOIN query_filter_tags ON query_filter_tags.name = tags.name COLLATE BINARY)"@,
    }
}

/// The tag predicate of a query (see `tag_filter_sql`).
pub fn filter_predicate(mode: TagMatchMode) -> (r: &'static str)
    ensures
        r@ == tag_filter_sql(mode),
{
    match mode {
        TagMatchMode::And => {
            "(SELECT COUNT(*) FROM query_filter_tags) = 0
             OR rows.id IN (
                 SELECT row_tags.row_id
                 FROM row_tags
                 JOIN tags ON tags.id = row_tags.tag_id
                 JOIN query_filter_tags ON query_filter_tags.name = tags.name COLLATE BINARY
                 GROUP BY row_tags.row_id
                 HAVING COUNT(*) = (SELECT COUNT(*) FROM query_filter_tags))"
        },
        TagMatchMode::Or => {
            "(SELECT COUNT(*) FROM query_filter_tags) = 0
             OR rows.id IN (
                 SELECT row_tags.row_id
                 FROM row_tags
                 JOIN tags ON tags.id = row_tags.tag_id
                 JOIN query_filter_tags ON query_filter_tags.name = tags.name COLLATE BINARY)"
        },
    }
}

/// The text rows are searched for: the search trimmed and lower-cased.
pub open spec fn search_text(search: Seq<char>) -> Seq<char> {
    lowercase(trim(search))
}

/// The predicate of the rows a query keeps: the tag predicate, narrowed to
/// single-artist rows, to ungrouped rows (outside group view) and to rows
/// whose path, prompts, note or artists contain the search.
pub open spec fn page_predicate(
    mode: TagMatchMode,
    single_artist_only: bool,
    group_view: bool,
    hide_grouped: bool,
    has_search: bool,
) -> Seq<char> {
    let p0 = tag_filter_sql(mode);
    let p1 = if single_artist_only {
        "("@ + p0 + ")\n             AND rows.artists IS NOT NULL\n             AND TRIM(rows.artists) != ''\n             AND INSTR(rows.artists, CHAR(10)) = 0"@
    } else {
        p0
    };
    let p2 = if !group_view && hide_grouped {
        "("@ + p1 + ") AND rows.group_id IS NULL"@
    } else {
        p1
    };
    if has_search {
        "("@ + p2 + ") AND (\n                INSTR(LOWER(COALESCE(rows.image_path, '')), ?1) > 0\n                OR INSTR(LOWER(COALESCE(rows.positive_prompt, '')), ?1) > 0\n                OR INSTR(LOWER(COALESCE(rows.character_prompt, '')), ?1) > 0\n                OR INSTR(LOWER(COALESCE(rows.negative_prompt, '')), ?1) > 0\n                OR INSTR(LOWER(COALESCE(rows.note, '')), ?1) > 0\n                OR INSTR(LOWER(COALESCE(rows.artists, '')), ?1) > 0\n            )"@
    } else {
        p2
    }
}

/// The column rows are deduplicated by.
pub open spec fn dedupe_column(d: DedupeMode) -> Seq<char> {
    match d {
        DedupeMode::Artists => "artists"@,
        _ => "positive_prompt"@,
    }
}

/// The statement that fills `target` with the ids of the rows a query
/// keeps: in group view the first row of each group and every ungrouped
/// row; otherwise every row, or with deduplication the rows without a key
/// and the first row of each key.
pub open spec fn filtered_rows_sql(target: Seq<char>, dedupe: DedupeMode, group_view: bool, pred: Seq<char>) -> Seq<char> {
    if group_view {
        "INSERT INTO "@ + target + "(id)\n                 SELECT MIN(rows.id) FROM rows\n                 WHERE ("@ + pred + ") AND rows.group_id IS NOT NULL\n                 GROUP BY rows.group_id\n                 UNION ALL\n                 SELECT rows.id FROM rows\n                 WHERE ("@ + pred + ") AND rows.group_id IS NULL"@
    } else if dedupe is Disabled {
        "INSERT INTO "@ + target + "(id)\n                     SELECT rows.id FROM rows WHERE "@ + pred
    } else {
        "INSERT INTO "@ + target + "(id)\n                         WITH filtered_rows AS (\n                             SELECT rows.id,\n                                    NULLIF(TRIM(COALESCE(rows."@ + dedupe_column(dedupe) + ", '')), '') AS dedupe_key\n                             FROM rows\n                             WHERE "@ + pred + "\n                         )\n                         SELECT id FROM filtered_rows WHERE dedupe_key IS NULL\n                         UNION ALL\n                         SELECT MIN(id)\n                         FROM filtered_rows\n                         WHERE dedupe_key IS NOT NULL\n                         GROUP BY dedupe_key"@
    }
}

/// The statement that fills `target_table` with the rows a query keeps
/// (see `filtered_rows_sql`), and the search parameter it binds as `?1`
/// when the search is not blank.
pub fn filtered_rows_statement(
    target_table: &str,
    mode: TagMatchMode,
    dedupe: DedupeMode,
    single_artist_only: bool,
    group_view: bool,
    hide_grouped: bool,
    search: &str,
) -> (r: (String, Option<String>))
    ensures
        ({
            let s = search_text(search@);
            let pred = page_predicate(mode, single_artist_only, group_view, hide_grouped, s.len() > 0);
            &&& r.0@ == filtered_rows_sql(target_table@, dedupe, group_view, pred)
            &&& (s.len() > 0 ==> (r.1 matches Some(p) && p@ == s))
            &&& (s.len() == 0 ==> r.1 is None)
        }),
{
    let mut pred = chars_of(filter_predicate(mode));
    if single_artist_only {
        let mut p = chars_of("(");
        append_chars(&mut p, &pred);
        push_str(&mut p, ")\n             AND rows.artists IS NOT NULL\n             AND TRIM(rows.artists) != ''\n             AND INSTR(rows.artists, CHAR(10)) = 0");
        pred = p;
    }
    if !group_view && hide_grouped {
        let mut p = chars_of("(");
        append_chars(&mut p, &pred);
        push_str(&mut p, ") AND rows.group_id IS NULL");
        pred = p;
    }
    let s = lowercase_chars(&trim_chars(&chars_of(search)));
    let has_search = s.len() > 0;
    if has_search {
        let mut p = chars_of("(");
        append_chars(&mut p, &pred);
        push_str(&mut p, ") AND (\n                INSTR(LOWER(COALESCE(rows.image_path, '')), ?1) > 0\n                OR INSTR(LOWER(COALESCE(rows.positive_prompt, '')), ?1) > 0\n                OR INSTR(LOWER(COALESCE(rows.character_prompt, '')), ?1) > 0\n                OR INSTR(LOWER(COALESCE(rows.negative_prompt, '')), ?1) > 0\n                OR INSTR(LOWER(COALESCE(rows.note, '')), ?1) > 0\n                OR INSTR(LOWER(COALESCE(rows.artists, '')), ?1) > 0\n            )");
        pred = p;
    }
    let mut sql = chars_of("INSERT INTO ");
    push_str(&mut sql, target_table);
    if group_view {
        push_str(&mut sql, "(id)\n                 SELECT MIN(rows.id) FROM rows\n                 WHERE (");
        append_chars(&mut sql, &pred);
        push_str(&mut sql, ") AND rows.group_id IS NOT NULL\n                 GROUP BY rows.group_id\n                 UNION ALL\n                 SELECT rows.id FROM rows\n                 WHERE (");
        append_chars(&mut sql, &pred);
        push_str(&mut sql, ") AND rows.group_id IS NULL");
    } else {
        match dedupe {
            DedupeMode::Disabled => {
                push_str(&mut sql, "(id)\n                     SELECT rows.id FROM rows WHERE ");
                append_chars(&mut sql, &pred);
            },
            _ => {
                push_str(&mut sql, "(id)\n                         WITH filtered_rows AS (\n                             SELECT rows.id,\n                                    NULLIF(TRIM(COALESCE(rows.");
                match dedupe {
                    DedupeMode::Artists => push_str(&mut sql, "artists"),
                    _ => push_str(&mut sql, "positive_prompt"),
                }
                push_str(&mut sql, ", '')), '') AS dedupe_key\n                             FROM rows\n                             WHERE ");
                append_chars(&mut sql, &pred);
                push_str(&mut sql, "\n                         )\n                         SELECT id FROM filtered_rows WHERE dedupe_key IS NULL\n                         UNION ALL\n                         SELECT MIN(id)\n                         FROM filtered_rows\n                         WHERE dedupe_key IS NOT NULL\n                         GROUP BY dedupe_key");
            },
        }
    }
    assert(pred@ =~= page_predicate(mode, single_artist_only, group_view, hide_grouped, has_search));
    assert(sql@ =~= filtered_rows_sql(target_table@, dedupe, group_view, pred@));
    let param = if has_search {
        Some(string_of(&s))
    } else {
        None
    };
    (string_of(&sql), param)
}

/// Whether a sequence of names is in strictly increasing code-point order.
pub open spec fn strictly_sorted(s: Seq<Seq<char>>) -> bool {
    forall|i: int, j: int| 0 <= i < j < s.len() ==> seq_lt(#[trigger] s[i], #[trigger] s[j])
}

/// Whether `t` is an artist of the stored artist lists: one of their lines,
/// trimmed and not blank.
pub open spec fn listed_artist(stored: Seq<Seq<char>>, t: Seq<char>) -> bool {
    t.len() > 0 && exists|i: int, j: int|
        0 <= i < stored.len() && 0 <= j < lines_of(stored[i]).len() && #[trigger] trim(lines_of(stored[i])[j]) == t
}

pub(crate) fn insert_sorted(out: &mut Vec<Vec<char>>, x: Vec<char>)
    requires
        strictly_sorted(views(old(out)@)),
    ensures
        strictly_sorted(views(final(out)@)),
        forall|t: Seq<char>| #[trigger] views(final(out)@).contains(t) <==> (views(old(out)@).contains(t) || t == x@),
{
    let ghost before = views(out@);
    let mut p: usize = 0;
    let mut stop = false;
    while p < out.len() && !stop
        invariant
            p <= out.len(),
            before == views(out@),
            stop ==> p < out.len() && !seq_lt(out@[p as int]@, x@),
            forall|k: int| 0 <= k < p ==> seq_lt(#[trigger] before[k], x@),
        decreases out.len() - p + (if stop { 0int } else { 1int }),
    {
        assert(before[p as int] == out@[p as int]@);
        if compare_chars(&out[p], &x) < 0 {
            p = p + 1;
        } else {
            stop = true;
        }
    }
    if p < out.len() && chars_eq(&out[p], &x) {
        assert(before[p as int] == x@);
        assert(before.contains(x@));
        return;
    }
    proof {
        if p < before.len() {
            assert(before[p as int] == out@[p as int]@);
            lemma_seq_lt_total(before[p as int], x@);
            assert forall|k: int| p < k < before.len() implies seq_lt(x@, #[trigger] before[k]) by {
                lemma_seq_lt_transitive(x@, before[p as int], before[k]);
            }
        }
    }
    let ghost xv = x@;
    out.insert(p, x);
    proof {
        let after = views(out@);
        assert(after =~= before.insert(p as int, xv));
        before.insert_ensures(p as int, xv);
        assert forall|a: int, b: int| 0 <= a < b < after.len() implies seq_lt(#[trigger] after[a], #[trigger] after[b]) by {
            if b < p {
            } else if a < p && b == p {
            } else if a < p {
                assert(after[b] == before[b - 1]);
                lemma_seq_lt_transitive(before[a], xv, before[b - 1]);
            } else if a == p {
                assert(after[b] == before[b - 1]);
            } else {
                assert(after[a] == before[a - 1]);
                assert(after[b] == before[b - 1]);
            }
        }
        assert forall|t: Seq<char>| #[trigger] after.contains(t) <==> (before.contains(t) || t == xv) by {
            if after.contains(t) {
                let k = choose|k: int| 0 <= k < after.len() && after[k] == t;
                if k < p {
                    assert(before[k] == t);
                } else if k > p {
                    assert(before[k - 1] == t);
                }
            }
            if before.contains(t) {
                let k = choose|k: int| 0 <= k < before.len() && before[k] == t;
                if k < p {
                    assert(after[k] == t);
                } else {
                    assert(after[k + 1] == t);
                }
            }
            if t == xv {
                assert(after[p as int] == t);
            }
        }
    }
}

/// The strings of `referenced` that `existing` lacks, in code-point order
/// and without repeats.
pub fn sorted_difference(referenced: &Vec<String>, existing: &Vec<String>) -> (r: Vec<String>)
    ensures
        strictly_sorted(string_views(r@)),
        forall|t: Seq<char>| #[trigger] string_views(r@).contains(t) <==> (string_views(referenced@).contains(t)
            && !string_views(existing@).contains(t)),
{
    let have = string_chars(existing);
    let wanted = string_chars(referenced);
    let mut out: Vec<Vec<char>> = Vec::new();
    let mut i: usize = 0;
    while i < wanted.len()
        invariant
            i <= wanted.len(),
            views(have@) == string_views(existing@),
            views(wanted@) == string_views(referenced@),
            strictly_sorted(views(out@)),
            forall|t: Seq<char>| #[trigger] views(out@).contains(t) <==> (views(wanted@).take(i as int).contains(t)
                && !views(have@).contains(t)),
        decreases wanted.len() - i,
    {
        let x = wanted[i].clone();
        assert(x@ == views(wanted@)[i as int]);
        let ghost before = views(out@);
        let ghost prefix = views(wanted@).take(i as int);
        let ghost next = views(wanted@).take(i + 1);
        assert(next =~= prefix.push(x@));
        if !contains_chars(&have, &x) {
            insert_sorted(&mut out, x);
        }
        assert forall|t: Seq<char>| #[trigger] views(out@).contains(t) <==> (next.contains(t) && !views(have@).contains(t)) by {
            if next.contains(t) {
                let k = choose|k: int| 0 <= k < next.len() && next[k] == t;
                if k < i {
                    assert(prefix[k] == t);
                }
            }
            if prefix.contains(t) {
                let k = choose|k: int| 0 <= k < prefix.len() && prefix[k] == t;
                assert(next[k] == t);
            }
            if t == x@ {
                assert(next[i as int] == t);
            }
        }
        i = i + 1;
    }
    assert(views(wanted@).take(i as int) =~= views(wanted@));
    let r = strings_of(&out);
    assert(string_views(r@) =~= views(out@));
    r
}

/// The distinct artists of the stored artist lists (see `listed_artist`), in
/// code-point order.
pub fn distinct_artists(stored: &Vec<String>) -> (r: Vec<String>)
    ensures
        strictly_sorted(string_views(r@)),
        forall|t: Seq<char>| #[trigger] string_views(r@).contains(t) <==> listed_artist(string_views(stored@), t),
{
    let ghost sv = string_views(stored@);
    let mut out: Vec<Vec<char>> = Vec::new();
    let mut i: usize = 0;
    while i < stored.len()
        invariant
            i <= stored.len(),
            sv == string_views(stored@),
            strictly_sorted(views(out@)),
            forall|t: Seq<char>| #[trigger] views(out@).contains(t) <==> (t.len() > 0 && exists|a: int, b: int|
                0 <= a < i && 0 <= b < lines_of(sv[a]).len() && #[trigger] trim(lines_of(sv[a])[b]) == t),
        decreases stored.len() - i,
    {
        let lines = split_lines(&chars_of(stored[i].as_str()));
        assert(sv[i as int] == stored@[i as int]@);
        let mut j: usize = 0;
        while j < lines.len()
            invariant
                i < stored.len(),
                j <= lines.len(),
                views(lines@) == lines_of(sv[i as int]),
                sv == string_views(stored@),
                strictly_sorted(views(out@)),
                forall|t: Seq<char>| #[trigger] views(out@).contains(t) <==> (t.len() > 0 && ((exists|a: int, b: int|
                    0 <= a < i && 0 <= b < lines_of(sv[a]).len() && #[trigger] trim(lines_of(sv[a])[b]) == t) || (exists|
                    b: int,
                | 0 <= b < j && #[trigger] trim(lines_of(sv[i as int])[b]) == t))),
            decreases lines.len() - j,
        {
            let t = trim_chars(&lines[j]);
            assert(views(lines@)[j as int] == lines@[j as int]@);
            let ghost tv = t@;
            let ghost before = views(out@);
            if t.len() > 0 {
                insert_sorted(&mut out, t);
            }
            proof {
                assert forall|u: Seq<char>| #[trigger] views(out@).contains(u) <==> (u.len() > 0 && ((exists|a: int, b: int|
                    0 <= a < i && 0 <= b < lines_of(sv[a]).len() && #[trigger] trim(lines_of(sv[a])[b]) == u) || (exists|
                    b: int,
                | 0 <= b < j + 1 && #[trigger] trim(lines_of(sv[i as int])[b]) == u))) by {
                    if exists|b: int| 0 <= b < j + 1 && #[trigger] trim(lines_of(sv[i as int])[b]) == u {
                        let b = choose|b: int| 0 <= b < j + 1 && #[trigger] trim(lines_of(sv[i as int])[b]) == u;
                        if b < j {
                        } else {
                            assert(u == tv);
                        }
                    }
                    if u == tv && u.len() > 0 {
                        assert(trim(lines_of(sv[i as int])[j as int]) == u);
                    }
                }
            }
            j = j + 1;
        }
        proof {
            assert forall|u: Seq<char>| #[trigger] views(out@).contains(u) <==> (u.len() > 0 && exists|a: int, b: int|
                0 <= a < i + 1 && 0 <= b < lines_of(sv[a]).len() && #[trigger] trim(lines_of(sv[a])[b]) == u) by {
                if u.len() > 0 && exists|a: int, b: int|
                    0 <= a < i + 1 && 0 <= b < lines_of(sv[a]).len() && #[trigger] trim(lines_of(sv[a])[b]) == u {
                    let (a, b) = choose|a: int, b: int|
                        0 <= a < i + 1 && 0 <= b < lines_of(sv[a]).len() && #[trigger] trim(lines_of(sv[a])[b]) == u;
                    if a == i {
                        assert(exists|b: int| 0 <= b < j && #[trigger] trim(lines_of(sv[i as int])[b]) == u);
                    }
                }
            }
        }
        i = i + 1;
    }
    let r = strings_of(&out);
    assert(string_views(r@) == r@.map_values(|s: String| s@));
    r
}

} // verus!
