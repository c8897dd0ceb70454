//! Import batches: where a batch came from, what it added, and the plan that
//! decides, row by row, which candidate rows a batch inserts.
use vstd::prelude::*;

use crate::errors::DatabaseError;
use crate::text::{append_chars, chars_of, string_of, trim, trim_chars, views, contains_chars};

verus! {

/// Where an import batch came from.
#[derive(Debug, Clone, Copy, PartialEq, Eq, Structural)]
pub enum SourceType {
    Xlsx,
    Folder,
    Archive,
}

pub open spec fn source_type_name(t: SourceType) -> Seq<char> {
    match t {
        SourceType::Xlsx => seq!['x', 'l', 's', 'x'],
        SourceType::Folder => seq!['f', 'o', 'l', 'd', 'e', 'r'],
        SourceType::Archive => seq!['a', 'r', 'c', 'h', 'i', 'v', 'e'],
    }
}

/// The text stored for an unknown source type, before the value itself.
pub open spec fn unknown_source_prefix() -> Seq<char> {
    seq!['未', '知', '的', '批', '次', '来', '源', '类', '型', ':', ' ']
}

impl SourceType {
    /// The stored name of the source type.
    pub fn as_str(self) -> (r: &'static str)
        ensures
            r@ == source_type_name(self),
    {
        match self {
            SourceType::Xlsx => {
                proof {
                    reveal_strlit("xlsx");
                }
                "xlsx"
            },
            SourceType::Folder => {
                proof {
                    reveal_strlit("folder");
                }
                "folder"
            },
            SourceType::Archive => {
                proof {
                    reveal_strlit("archive");
                }
                "archive"
            },
        }
    }

    /// The source type with this stored name; any other text is an
    /// integrity failure naming the value.
    pub fn from_str(value: &str) -> (r: Result<SourceType, DatabaseError>)
        ensures
            match r {
                Ok(t) => source_type_name(t) == value@,
                Err(DatabaseError::IntegrityCheckFailed(m)) => m@ == unknown_source_prefix() + value@
                    && value@ != source_type_name(SourceType::Xlsx) && value@ != source_type_name(
                    SourceType::Folder) && value@ != source_type_name(SourceType::Archive),
                Err(_) => false,
            },
    {
        let v = chars_of(value);
        let xlsx = vec!['x', 'l', 's', 'x'];
        let folder = vec!['f', 'o', 'l', 'd', 'e', 'r'];
        let archive = vec!['a', 'r', 'c', 'h', 'i', 'v', 'e'];
        assert(xlsx@ =~= source_type_name(SourceType::Xlsx));
        assert(folder@ =~= source_type_name(SourceType::Folder));
        assert(archive@ =~= source_type_name(SourceType::Archive));
        if crate::text::chars_eq(&v, &xlsx) {
            Ok(SourceType::Xlsx)
        } else if crate::text::chars_eq(&v, &folder) {
            Ok(SourceType::Folder)
        } else if crate::text::chars_eq(&v, &archive) {
            Ok(SourceType::Archive)
        } else {
            let mut m = vec!['未', '知', '的', '批', '次', '来', '源', '类', '型', ':', ' '];
            assert(m@ =~= unknown_source_prefix());
            append_chars(&mut m, &v);
            Err(DatabaseError::IntegrityCheckFailed(string_of(&m)))
        }
    }
}

/// A stored import batch.
#[derive(Debug, Clone, PartialEq, Eq)]
pub struct BatchSummary {
    pub id: i64,
    pub source_type: SourceType,
    pub source_path: String,
    pub imported_at: String,
    pub added_count: u64,
    pub skipped_count: u64,
}

/// The size of the library and its latest batch.
#[derive(Debug, Clone, PartialEq, Eq)]
pub struct LibrarySummary {
    pub row_count: u64,
    pub batch_count: u64,
    pub last_batch: Option<BatchSummary>,
}

/// One candidate row of an import. `identity` is its identity key (see the
/// `identity` module).
#[derive(Debug, Clone, Default, PartialEq, Eq)]
pub struct NewRow {
    pub source_ordinal: u32,
    pub identity: String,
    pub source_size: Option<i64>,
    pub source_mtime: Option<i64>,
    pub content_hash: Option<String>,
    pub perceptual_hash: Option<String>,
    pub time: Option<String>,
    pub positive_prompt: Option<String>,
    pub character_prompt: Option<String>,
    pub negative_prompt: Option<String>,
    pub note: Option<String>,
    pub artists: Option<String>,
    pub image_folder: Option<String>,
    pub image_path: Option<String>,
    /// Path of the managed copy relative to the batch directory; stored as
    /// `files/<batch id>/<this path>`.
    pub stored_image_rel: Option<String>,
    pub metadata_failed: bool,
}

/// What appending a batch did.
#[derive(Debug, Clone, PartialEq, Eq)]
pub struct AppendOutcome {
    pub batch_id: i64,
    pub added: u64,
    pub skipped_existing: u64,
    pub skipped_content: u64,
    /// Rows whose identity was already stored with a different size or
    /// modification time (reported only; the stored row is left alone).
    pub changed_existing: u64,
}

/// A batch summary from its stored columns: (id, source type, source path,
/// import time, added count, skipped count).
pub fn batch_summary_from_stored(stored: (i64, String, String, String, i64, i64)) -> (r: Result<
    BatchSummary,
    DatabaseError,
>)
    ensures
        match r {
            Ok(b) => {
                &&& b.id == stored.0
                &&& source_type_name(b.source_type) == stored.1@
                &&& b.source_path == stored.2
                &&& b.imported_at == stored.3
                &&& b.added_count == stored.4
                &&& b.skipped_count == stored.5
            },
            Err(DatabaseError::IntegrityCheckFailed(m)) => m@ == unknown_source_prefix() + stored.1@
                && stored.1@ != source_type_name(SourceType::Xlsx) && stored.1@ != source_type_name(
                SourceType::Folder) && stored.1@ != source_type_name(SourceType::Archive),
            Err(DatabaseError::CountOverflow) => (stored.1@ == source_type_name(SourceType::Xlsx)
                || stored.1@ == source_type_name(SourceType::Folder) || stored.1@ == source_type_name(
                SourceType::Archive)) && (stored.4 < 0 || stored.5 < 0),
            Err(_) => false,
        },
{
    let (id, source_type, source_path, imported_at, added_count, skipped_count) = stored;
    let source_type = match SourceType::from_str(source_type.as_str()) {
        Ok(t) => t,
        Err(e) => return Err(e),
    };
    if added_count < 0 || skipped_count < 0 {
        return Err(DatabaseError::CountOverflow);
    }
    Ok(BatchSummary {
        id,
        source_type,
        source_path,
        imported_at,
        added_count: added_count as u64,
        skipped_count: skipped_count as u64,
    })
}

} // verus!

verus! {

/// The first identity problem among the first `n` rows: `(true, id)` for a
/// blank identity, `(false, id)` for one already used by an earlier row.
pub open spec fn identity_problem(rows: Seq<NewRow>, n: int) -> Option<(bool, Seq<char>)>
    decreases n,
{
    if n <= 0 {
        None
    } else {
        let prev = identity_problem(rows, n - 1);
        let id = rows[n - 1].identity@;
        if prev is Some {
            prev
        } else if trim(id).len() == 0 {
            Some((true, id))
        } else if exists|j: int| 0 <= j < n - 1 && rows[j].identity@ == id {
            Some((false, id))
        } else {
            None
        }
    }
}

/// Checks that every row of a batch has a non-blank identity and that no
/// identity occurs twice; the first offending row decides the error.
pub fn validate_batch_identities(rows: &Vec<NewRow>) -> (r: Result<(), DatabaseError>)
    ensures
        match r {
            Ok(()) => identity_problem(rows@, rows@.len() as int) is None,
            Err(DatabaseError::EmptyIdentity) => identity_problem(rows@, rows@.len() as int) matches Some((true, _)),
            Err(DatabaseError::DuplicateIdentityInBatch(s)) => identity_problem(rows@, rows@.len() as int)
                == Some((false, s@)),
            Err(_) => false,
        },
{
    let mut seen: Vec<Vec<char>> = Vec::new();
    let mut i: usize = 0;
    while i < rows.len()
        invariant
            i <= rows.len(),
            identity_problem(rows@, i as int) is None,
            views(seen@) == Seq::new(i as nat, |j: int| rows@[j].identity@),
        decreases rows.len() - i,
    {
        let id = chars_of(rows[i].identity.as_str());
        let t = trim_chars(&id);
        if t.len() == 0 {
            proof {
                lemma_identity_problem_stable(rows@, i + 1, rows@.len() as int);
            }
            return Err(DatabaseError::EmptyIdentity);
        }
        if contains_chars(&seen, &id) {
            proof {
                let k = choose|k: int| 0 <= k < views(seen@).len() && views(seen@)[k] == id@;
                assert(rows@[k].identity@ == id@);
                lemma_identity_problem_stable(rows@, i + 1, rows@.len() as int);
            }
            return Err(DatabaseError::DuplicateIdentityInBatch(rows[i].identity.clone()));
        }
        let ghost before = views(seen@);
        let ghost idv = id@;
        seen.push(id);
        proof {
            assert(views(seen@) =~= before.push(idv));
            assert(views(seen@) =~= Seq::new((i + 1) as nat, |j: int| rows@[j].identity@));
            assert(!(exists|j: int| 0 <= j < i && rows@[j].identity@ == rows@[i as int].identity@)) by {
                if exists|j: int| 0 <= j < i && rows@[j].identity@ == rows@[i as int].identity@ {
                    let j = choose|j: int| 0 <= j < i && rows@[j].identity@ == rows@[i as int].identity@;
                    assert(before[j] == rows@[j].identity@);
                }
            }
        }
        i = i + 1;
    }
    Ok(())
}

proof fn lemma_identity_problem_stable(rows: Seq<NewRow>, n: int, m: int)
    requires
        0 <= n <= m,
        identity_problem(rows, n) is Some,
    ensures
        identity_problem(rows, m) == identity_problem(rows, n),
    decreases m - n,
{
    if m > n {
        lemma_identity_problem_stable(rows, n, m - 1);
    }
}

/// What a batch does with one candidate row.
#[derive(Debug, Clone, Copy, PartialEq, Eq, Structural)]
pub enum RowDecision {
    /// The row is inserted.
    Insert,
    /// A row with this identity is already stored.
    SkipExisting,
    /// A row with this content hash is already stored or inserted earlier
    /// in the batch.
    SkipContent,
}

/// The decisions for a batch and their counts.
#[derive(Debug, Clone, PartialEq, Eq)]
pub struct BatchPlan {
    pub decisions: Vec<RowDecision>,
    pub added: u64,
    pub skipped_existing: u64,
    pub skipped_content: u64,
    pub changed_existing: u64,
}

/// The state of the plan after the first rows.
pub struct PlanView {
    pub decisions: Seq<RowDecision>,
    pub hashes: Set<Seq<char>>,
    pub added: nat,
    pub skipped_existing: nat,
    pub skipped_content: nat,
    pub changed_existing: nat,
}

/// Whether a stored row with this size and modification time differs from
/// the candidate: only when the candidate knows either value.
pub open spec fn stored_row_changed(row: NewRow, stored: (Option<i64>, Option<i64>)) -> bool {
    (row.source_size is Some || row.source_mtime is Some) && (stored.0 != row.source_size
        || stored.1 != row.source_mtime)
}

/// The plan after the first `n` rows. `existing[i]` is the stored size and
/// modification time of the row with row `i`'s identity, if one is stored;
/// `hashes` are the content hashes already stored.
pub open spec fn plan_prefix(
    rows: Seq<NewRow>,
    existing: Seq<Option<(Option<i64>, Option<i64>)>>,
    hashes: Set<Seq<char>>,
    n: int,
) -> PlanView
    decreases n,
{
    if n <= 0 {
        PlanView {
            decisions: Seq::empty(),
            hashes,
            added: 0,
            skipped_existing: 0,
            skipped_content: 0,
            changed_existing: 0,
        }
    } else {
        let p = plan_prefix(rows, existing, hashes, n - 1);
        let row = rows[n - 1];
        match existing[n - 1] {
            Some(stored) => PlanView {
                decisions: p.decisions.push(RowDecision::SkipExisting),
                skipped_existing: p.skipped_existing + 1,
                changed_existing: if stored_row_changed(row, stored) {
                    p.changed_existing + 1
                } else {
                    p.changed_existing
                },
                ..p
            },
            None => match row.content_hash {
                Some(h) => if p.hashes.contains(h@) {
                    PlanView {
                        decisions: p.decisions.push(RowDecision::SkipContent),
                        skipped_content: p.skipped_content + 1,
                        ..p
                    }
                } else {
                    PlanView {
                        decisions: p.decisions.push(RowDecision::Insert),
                        hashes: p.hashes.insert(h@),
                        added: p.added + 1,
                        ..p
                    }
                },
                None => PlanView {
                    decisions: p.decisions.push(RowDecision::Insert),
                    added: p.added + 1,
                    ..p
                },
            },
        }
    }
}

/// Counting changed rows: the `n`-th candidate adds one to the count of
/// changed existing rows exactly when a row with its identity is stored, the
/// candidate knows its size or its modification time, and the stored size
/// differs from the candidate's or the stored modification time does; any
/// other candidate leaves the count as it was.
pub proof fn lemma_changed_existing_step(
    rows: Seq<NewRow>,
    existing: Seq<Option<(Option<i64>, Option<i64>)>>,
    hashes: Set<Seq<char>>,
    n: int,
)
    requires
        1 <= n <= rows.len(),
        n <= existing.len(),
    ensures
        plan_prefix(rows, existing, hashes, n).changed_existing == plan_prefix(rows, existing, hashes, n
            - 1).changed_existing + match existing[n - 1] {
            Some((size, mtime)) => if (rows[n - 1].source_size is Some || rows[n - 1].source_mtime is Some)
                && (size != rows[n - 1].source_size || mtime != rows[n - 1].source_mtime) {
                1int
            } else {
                0int
            },
            None => 0int,
        },
{
}

/// The content hash of candidate `j` when its identity is not stored.
pub open spec fn fresh_hash(
    rows: Seq<NewRow>,
    existing: Seq<Option<(Option<i64>, Option<i64>)>>,
    j: int,
) -> Option<Seq<char>> {
    if existing[j] is None && rows[j].content_hash is Some {
        Some(rows[j].content_hash.unwrap()@)
    } else {
        None
    }
}

/// After `k` candidates the plan has one decision per candidate, keeps the
/// decisions it took, and knows the stored hashes and the hashes of the
/// candidates whose identity is not stored, and no others.
proof fn lemma_plan_prefix_facts(
    rows: Seq<NewRow>,
    existing: Seq<Option<(Option<i64>, Option<i64>)>>,
    hashes: Set<Seq<char>>,
    k: int,
)
    requires
        0 <= k <= rows.len(),
        k <= existing.len(),
    ensures
        plan_prefix(rows, existing, hashes, k).decisions.len() == k,
        forall|i: int|
            0 <= i < k ==> #[trigger] plan_prefix(rows, existing, hashes, k).decisions[i] == plan_prefix(
                rows,
                existing,
                hashes,
                i + 1,
            ).decisions[i],
        forall|x: Seq<char>|
            #[trigger] plan_prefix(rows, existing, hashes, k).hashes.contains(x) <==> (hashes.contains(x)
                || exists|j: int| 0 <= j < k && #[trigger] fresh_hash(rows, existing, j) == Some(x)),
    decreases k,
{
    if k > 0 {
        lemma_plan_prefix_facts(rows, existing, hashes, k - 1);
        let p = plan_prefix(rows, existing, hashes, k - 1);
        let q = plan_prefix(rows, existing, hashes, k);
        assert forall|i: int| 0 <= i < k implies #[trigger] q.decisions[i] == plan_prefix(
            rows,
            existing,
            hashes,
            i + 1,
        ).decisions[i] by {
            if i < k - 1 {
                assert(q.decisions[i] == p.decisions[i]);
            }
        }
        assert forall|x: Seq<char>| #[trigger] q.hashes.contains(x) <==> (hashes.contains(x) || exists|j: int|
            0 <= j < k && #[trigger] fresh_hash(rows, existing, j) == Some(x)) by {
            if q.hashes.contains(x) && !hashes.contains(x) {
                if p.hashes.contains(x) {
                    let j = choose|j: int| 0 <= j < k - 1 && #[trigger] fresh_hash(rows, existing, j) == Some(x);
                    assert(0 <= j < k && fresh_hash(rows, existing, j) == Some(x));
                } else {
                    assert(fresh_hash(rows, existing, k - 1) == Some(x));
                }
            }
            if exists|j: int| 0 <= j < k && #[trigger] fresh_hash(rows, existing, j) == Some(x) {
                let j = choose|j: int| 0 <= j < k && #[trigger] fresh_hash(rows, existing, j) == Some(x);
                if j < k - 1 {
                    assert(p.hashes.contains(x));
                }
            }
        }
    }
}

/// The decision for candidate `i` of a batch: a candidate whose identity is
/// stored is skipped as existing; otherwise one without a content hash is
/// inserted, and one with a content hash is skipped as duplicate content
/// exactly when that hash is stored or belongs to an earlier candidate
/// whose identity is not stored, and inserted otherwise.
pub proof fn lemma_plan_decision(
    rows: Seq<NewRow>,
    existing: Seq<Option<(Option<i64>, Option<i64>)>>,
    hashes: Set<Seq<char>>,
    n: int,
    i: int,
)
    requires
        0 <= i < n <= rows.len(),
        n <= existing.len(),
    ensures
        plan_prefix(rows, existing, hashes, n).decisions.len() == n,
        plan_prefix(rows, existing, hashes, n).decisions[i] == (if existing[i] is Some {
            RowDecision::SkipExisting
        } else if rows[i].content_hash is None {
            RowDecision::Insert
        } else if hashes.contains(rows[i].content_hash.unwrap()@) || exists|j: int|
            0 <= j < i && existing[j] is None && rows[j].content_hash is Some
                && #[trigger] rows[j].content_hash.unwrap()@ == rows[i].content_hash.unwrap()@ {
            RowDecision::SkipContent
        } else {
            RowDecision::Insert
        }),
{
    lemma_plan_prefix_facts(rows, existing, hashes, n);
    lemma_plan_prefix_facts(rows, existing, hashes, i);
    let p = plan_prefix(rows, existing, hashes, i);
    if existing[i] is None && rows[i].content_hash is Some {
        let x = rows[i].content_hash.unwrap()@;
        if p.hashes.contains(x) && !hashes.contains(x) {
            let j = choose|j: int| 0 <= j < i && #[trigger] fresh_hash(rows, existing, j) == Some(x);
            assert(0 <= j < i && existing[j] is None && rows[j].content_hash is Some
                && rows[j].content_hash.unwrap()@ == x);
        }
        if exists|j: int| 0 <= j < i && existing[j] is None && rows[j].content_hash is Some
            && #[trigger] rows[j].content_hash.unwrap()@ == x {
            let j = choose|j: int| 0 <= j < i && existing[j] is None && rows[j].content_hash is Some
                && #[trigger] rows[j].content_hash.unwrap()@ == x;
            assert(fresh_hash(rows, existing, j) == Some(x));
        }
    }
}

/// Decides for each candidate row of a batch whether it is inserted: rows
/// whose identity is stored are skipped (and counted as changed when their
/// known size or modification time differs), then rows whose content hash is
/// stored or was inserted earlier in the batch are skipped; the rest are
/// inserted in order.
pub fn plan_batch_rows(
    rows: &Vec<NewRow>,
    existing: &Vec<Option<(Option<i64>, Option<i64>)>>,
    stored_hashes: &Vec<String>,
) -> (r: BatchPlan)
    requires
        existing.len() == rows.len(),
    ensures
        ({
            let p = plan_prefix(
                rows@,
                existing@,
                stored_hashes@.map_values(|h: String| h@).to_set(),
                rows@.len() as int,
            );
            &&& r.decisions@ == p.decisions
            &&& r.added == p.added
            &&& r.skipped_existing == p.skipped_existing
            &&& r.skipped_content == p.skipped_content
            &&& r.changed_existing == p.changed_existing
        }),
        r.decisions.len() == rows.len(),
        r.added + r.skipped_existing + r.skipped_content == rows.len(),
        r.changed_existing <= r.skipped_existing,
{
    let ghost h0 = stored_hashes@.map_values(|h: String| h@).to_set();
    let mut seen: Vec<Vec<char>> = Vec::new();
    let mut k: usize = 0;
    while k < stored_hashes.len()
        invariant
            k <= stored_hashes.len(),
            views(seen@) == stored_hashes@.map_values(|h: String| h@).take(k as int),
        decreases stored_hashes.len() - k,
    {
        let ghost before = views(seen@);
        let hc = chars_of(stored_hashes[k].as_str());
        let ghost hv = hc@;
        seen.push(hc);
        assert(views(seen@) =~= before.push(hv));
        k = k + 1;
        assert(views(seen@) =~= stored_hashes@.map_values(|h: String| h@).take(k as int));
    }
    assert(stored_hashes@.map_values(|h: String| h@).take(k as int) =~= stored_hashes@.map_values(|h: String| h@));
    let mut decisions: Vec<RowDecision> = Vec::new();
    let mut added: u64 = 0;
    let mut skipped_existing: u64 = 0;
    let mut skipped_content: u64 = 0;
    let mut changed_existing: u64 = 0;
    let mut i: usize = 0;
    while i < rows.len()
        invariant
            existing.len() == rows.len(),
            i <= rows.len(),
            ({
                let p = plan_prefix(rows@, existing@, h0, i as int);
                &&& decisions@ == p.decisions
                &&& added == p.added
                &&& skipped_existing == p.skipped_existing
                &&& skipped_content == p.skipped_content
                &&& changed_existing == p.changed_existing
                &&& views(seen@).to_set() == p.hashes
                &&& p.added + p.skipped_existing + p.skipped_content == i
                &&& p.changed_existing <= p.skipped_existing
                &&& p.decisions.len() == i
            }),
        decreases rows.len() - i,
    {
        let row = &rows[i];
        match existing[i] {
            Some((size, mtime)) => {
                skipped_existing = skipped_existing + 1;
                let known = row.source_size.is_some() || row.source_mtime.is_some();
                if known && (size != row.source_size || mtime != row.source_mtime) {
                    changed_existing = changed_existing + 1;
                }
                decisions.push(RowDecision::SkipExisting);
            },
            None => match &row.content_hash {
                Some(h) => {
                    let hc = chars_of(h.as_str());
                    if contains_chars(&seen, &hc) {
                        skipped_content = skipped_content + 1;
                        decisions.push(RowDecision::SkipContent);
                    } else {
                        let ghost before = views(seen@);
                        seen.push(hc);
                        proof {
                            assert(views(seen@) =~= before.push(h@));
                            before.lemma_push_to_set_commute(h@);
                        }
                        added = added + 1;
                        decisions.push(RowDecision::Insert);
                    }
                },
                None => {
                    added = added + 1;
                    decisions.push(RowDecision::Insert);
                },
            },
        }
        i = i + 1;
    }
    BatchPlan { decisions, added, skipped_existing, skipped_content, changed_existing }
}

} // verus!

verus! {

pub open spec fn digit_char(d: nat) -> char {
    (48 + d) as char
}

/// The decimal digits of `n`.
pub open spec fn decimal_digits(n: nat) -> Seq<char>
    decreases n,
{
    if n < 10 {
        seq![digit_char(n)]
    } else {
        decimal_digits(n / 10).push(digit_char(n % 10))
    }
}

/// `n` as `Display` writes it.
pub open spec fn decimal_text(n: int) -> Seq<char> {
    if n < 0 {
        seq!['-'] + decimal_digits((-n) as nat)
    } else {
        decimal_digits(n as nat)
    }
}

spec fn digits_or_empty(m: nat) -> Seq<char> {
    if m == 0 {
        Seq::empty()
    } else {
        decimal_digits(m)
    }
}

proof fn lemma_digits_step(m: nat)
    requires
        m > 0,
    ensures
        digits_or_empty(m) == digits_or_empty(m / 10).push(digit_char(m % 10)),
{
    if m < 10 {
        assert(m / 10 == 0);
        assert(seq![digit_char(m)] =~= Seq::<char>::empty().push(digit_char(m % 10)));
    }
}

/// The decimal digits of `mag`.
pub fn unsigned_digits(mag: u64) -> (r: Vec<char>)
    ensures
        r@ == decimal_digits(mag as nat),
{
    let mut m = mag;
    let mut rev: Vec<char> = Vec::new();
    if m == 0 {
        rev.push('0');
        assert(decimal_digits(0) =~= rev@);
    } else {
        assert(decimal_digits(mag as nat) =~= digits_or_empty(mag as nat) + rev@.reverse());
        while m > 0
            invariant
                decimal_digits(mag as nat) == digits_or_empty(m as nat) + rev@.reverse(),
            decreases m,
        {
            let d = m % 10;
            proof {
                lemma_digits_step(m as nat);
            }
            let c = ((48 + d) as u8) as char;
            let ghost before = rev@;
            rev.push(c);
            assert(rev@.reverse() =~= seq![c] + before.reverse());
            m = m / 10;
            assert(decimal_digits(mag as nat) =~= digits_or_empty(m as nat) + rev@.reverse());
        }
        assert(digits_or_empty(0) =~= Seq::<char>::empty());
        assert(decimal_digits(mag as nat) =~= rev@.reverse());
    }
    let mut out: Vec<char> = Vec::new();
    let mut j = rev.len();
    while j > 0
        invariant
            j <= rev.len(),
            out@ == rev@.reverse().take((rev.len() - j) as int),
        decreases j,
    {
        j = j - 1;
        out.push(rev[j]);
        assert(out@ =~= rev@.reverse().take((rev.len() - j) as int));
    }
    assert(rev@.reverse().take(rev.len() as int) =~= rev@.reverse());
    proof {
        if mag == 0 {
            assert(rev@.reverse() =~= rev@);
        }
    }
    out
}

/// `n` in decimal.
pub fn decimal_chars(n: i64) -> (r: Vec<char>)
    ensures
        r@ == decimal_text(n as int),
{
    let neg = n < 0;
    let mag: u64 = if neg {
        (-(n as i128)) as u64
    } else {
        n as u64
    };
    let digits = unsigned_digits(mag);
    let mut out: Vec<char> = Vec::new();
    if neg {
        out.push('-');
    }
    crate::text::append_chars(&mut out, &digits);
    proof {
        if neg {
            assert(mag as int == -(n as int));
            assert(out@ =~= seq!['-'] + decimal_digits(mag as nat));
        } else {
            assert(out@ =~= decimal_digits(mag as nat));
        }
    }
    out
}

/// The stored path of a managed copy: `files/<batch id>/<relative path>`.
pub open spec fn stored_path_text(batch_id: i64, relative: Seq<char>) -> Seq<char> {
    seq!['f', 'i', 'l', 'e', 's', '/'] + decimal_text(batch_id as int) + seq!['/'] + relative
}

/// Where a batch stores the managed copy of a row, when the row has one.
pub fn stored_image_path(batch_id: i64, relative: &Option<String>) -> (r: Option<String>)
    ensures
        match relative {
            Some(rel) => r is Some && r->0@ == stored_path_text(batch_id, rel@),
            None => r is None,
        },
{
    match relative {
        Some(rel) => {
            let mut out = vec!['f', 'i', 'l', 'e', 's', '/'];
            let d = decimal_chars(batch_id);
            append_chars(&mut out, &d);
            out.push('/');
            let rc = chars_of(rel.as_str());
            append_chars(&mut out, &rc);
            assert(out@ =~= stored_path_text(batch_id, rel@));
            Some(string_of(&out))
        },
        None => None,
    }
}

} // verus!
