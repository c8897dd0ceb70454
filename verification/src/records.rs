//! Plain records that storage operations hand back: comparison pages,
//! deletion and duplicate reports, export rows, groups, hashes, restorable
//! row states, image locations and materials.
use vstd::prelude::*;

use crate::query::{RowRecord, MAX_PAGE_SIZE};
use crate::errors::DatabaseError;
use crate::batches::{decimal_text, unsigned_digits};
use crate::prompt_tokens::{keep_first_nonempty, push_new_nonempty, strings_of};
use crate::text::{append_chars, chars_eq, chars_of, string_of, string_views, trim, trim_chars, views};

verus! {

/// The sample row of a comparison and which of its signatures exist.
#[derive(Debug, Clone, PartialEq, Eq)]
pub struct CompareSample {
    pub row: RowRecord,
    /// Whether the sample has a style signature.
    pub has_style_signature: bool,
    /// Whether the sample has a known VIBE signature.
    pub has_vibe_signature: bool,
    /// Whether the sample's VIBE was scanned but its image was unreadable.
    pub vibe_signature_unreadable: bool,
}

/// One page of a comparison section.
#[derive(Debug, Clone, PartialEq, Eq)]
pub struct CompareSectionPage {
    pub rows: Vec<RowRecord>,
    pub total_count: u64,
    pub offset: u64,
    pub limit: u32,
}

/// Rows sharing the sample's style across models.
#[derive(Debug, Clone, PartialEq, Eq)]
pub struct CompareModelSection {
    pub rows: Vec<RowRecord>,
    pub total_count: u64,
    /// Whether more rows matched than were returned.
    pub truncated: bool,
}

/// An empty comparison page.
pub fn empty_page(offset: u64, limit: u32) -> (r: CompareSectionPage)
    ensures
        r.rows@.len() == 0,
        r.total_count == 0,
        r.offset == offset,
        r.limit == limit,
{
    CompareSectionPage { rows: Vec::new(), total_count: 0, offset, limit }
}

/// Checks a page request: the size must lie in `1..=MAX_PAGE_SIZE` and the
/// offset must fit SQLite's integers; returns the offset as such.
pub fn validate_page(offset: u64, limit: u32) -> (r: Result<i64, DatabaseError>)
    ensures
        limit == 0 || limit > MAX_PAGE_SIZE ==> (r matches Err(DatabaseError::InvalidPageSize { requested, maximum })
            && requested == limit && maximum == MAX_PAGE_SIZE),
        !(limit == 0 || limit > MAX_PAGE_SIZE) && offset > i64::MAX ==> r matches Err(DatabaseError::OffsetOverflow),
        !(limit == 0 || limit > MAX_PAGE_SIZE) && offset <= i64::MAX ==> r == Ok::<i64, DatabaseError>(offset as i64),
{
    if limit == 0 || limit > MAX_PAGE_SIZE {
        return Err(DatabaseError::InvalidPageSize { requested: limit, maximum: MAX_PAGE_SIZE });
    }
    if offset > i64::MAX as u64 {
        return Err(DatabaseError::OffsetOverflow);
    }
    Ok(offset as i64)
}

/// What deleting rows removed.
#[derive(Debug, Clone, PartialEq, Eq)]
pub struct DeleteOutcome {
    pub deleted_rows: u64,
    /// The deleted row ids, ascending.
    pub deleted_row_ids: Vec<i64>,
    /// Managed copies of deleted rows, to be removed from storage.
    pub stored_image_paths: Vec<String>,
    /// Original images of deleted folder rows.
    pub original_image_paths: Vec<String>,
    /// Deleted rows that came from archives (they have no separate original).
    pub archive_rows: usize,
}

/// What rows are grouped by when duplicates are sought: the trimmed,
/// case-sensitive text of one column; empty values never group.
#[derive(Debug, Clone, Copy, PartialEq, Eq, Structural)]
pub enum DuplicateKey {
    PositivePrompt,
    Artists,
}

pub open spec fn duplicate_column(k: DuplicateKey) -> Seq<char> {
    match k {
        DuplicateKey::PositivePrompt => seq!['p', 'o', 's', 'i', 't', 'i', 'v', 'e', '_', 'p', 'r', 'o', 'm', 'p', 't'],
        DuplicateKey::Artists => seq!['a', 'r', 't', 'i', 's', 't', 's'],
    }
}

impl DuplicateKey {
    /// The column the key reads.
    pub fn column(self) -> (r: &'static str)
        ensures
            r@ == duplicate_column(self),
    {
        match self {
            DuplicateKey::PositivePrompt => {
                proof {
                    reveal_strlit("positive_prompt");
                }
                "positive_prompt"
            },
            DuplicateKey::Artists => {
                proof {
                    reveal_strlit("artists");
                }
                "artists"
            },
        }
    }
}

/// One row of a duplicate group.
#[derive(Debug, Clone, PartialEq, Eq)]
pub struct DuplicateRow {
    pub id: i64,
    pub batch_id: i64,
    pub source_ordinal: u32,
    pub time: Option<String>,
    pub image_path: Option<String>,
    pub stored_image_path: Option<String>,
    pub tags: Vec<String>,
}

/// Rows sharing one key text.
#[derive(Debug, Clone, PartialEq, Eq)]
pub struct DuplicateGroup {
    /// The shared prompt or artist text.
    pub key: String,
    pub rows: Vec<DuplicateRow>,
}

/// The duplicate groups of the library.
#[derive(Debug, Clone, PartialEq, Eq)]
pub struct DuplicateReport {
    /// All duplicate groups in the library (may exceed the groups returned).
    pub total_groups: u64,
    /// Rows beyond the first of each group, over the whole library.
    pub total_redundant_rows: u64,
    /// The first groups, ordered by their earliest row.
    pub groups: Vec<DuplicateGroup>,
}

/// One exported row.
#[derive(Debug, Clone, PartialEq, Eq)]
pub struct ExportRow {
    pub id: i64,
    pub time: Option<String>,
    pub positive_prompt: Option<String>,
    pub negative_prompt: Option<String>,
    pub artists: Option<String>,
    pub image_folder: Option<String>,
    pub image_path: Option<String>,
    pub stored_image_path: Option<String>,
    pub tags: Vec<String>,
}

/// A group with its member count.
#[derive(Debug, Clone, PartialEq, Eq)]
pub struct GroupSummary {
    pub id: i64,
    pub name: String,
    pub member_count: u64,
    pub created_at: String,
}

/// A row whose content hash is still missing.
#[derive(Debug, Clone, PartialEq, Eq)]
pub struct ContentHashCandidate {
    pub row_id: i64,
    pub image_path: Option<String>,
    pub stored_image_path: Option<String>,
}

/// The editable state of a row, as undo restores it.
#[derive(Debug, Clone, PartialEq, Eq)]
pub struct MutableRowState {
    pub row_id: i64,
    pub positive_prompt: Option<String>,
    pub character_prompt: Option<String>,
    pub negative_prompt: Option<String>,
    pub note: Option<String>,
    pub artists: Option<String>,
    pub tags: Vec<String>,
    pub group_id: Option<i64>,
}

/// Whether the row id of state `i` cannot be restored: it is not positive,
/// or an earlier state already names it.
pub open spec fn unusable_state(ids: Seq<i64>, i: int) -> bool {
    ids[i] <= 0 || ids.take(i).contains(ids[i])
}

/// The first state, by index into `row_ids` (the row ids of the states to
/// restore, in order), whose row id cannot be restored; `None` when every
/// one can. Restoring fails on that state with `RowNotFound` of its id.
pub fn first_unusable_state(row_ids: &Vec<i64>) -> (r: Option<usize>)
    ensures
        match r {
            Some(i) => i < row_ids.len() && unusable_state(row_ids@, i as int) && forall|j: int|
                0 <= j < i ==> !#[trigger] unusable_state(row_ids@, j),
            None => forall|j: int| 0 <= j < row_ids.len() ==> !#[trigger] unusable_state(row_ids@, j),
        },
{
    let mut i: usize = 0;
    while i < row_ids.len()
        invariant
            i <= row_ids.len(),
            forall|j: int| 0 <= j < i ==> !#[trigger] unusable_state(row_ids@, j),
        decreases row_ids.len() - i,
    {
        let id = row_ids[i];
        let mut seen = false;
        let mut k: usize = 0;
        while k < i
            invariant
                k <= i < row_ids.len(),
                id == row_ids@[i as int],
                seen <==> row_ids@.take(k as int).contains(id),
            decreases i - k,
        {
            let ghost before = row_ids@.take(k as int);
            let ghost after = row_ids@.take(k + 1);
            assert(after =~= before.push(row_ids@[k as int]));
            if row_ids[k] == id {
                seen = true;
                assert(after[k as int] == id);
            }
            assert(after.contains(id) <==> (before.contains(id) || row_ids@[k as int] == id)) by {
                if after.contains(id) && row_ids@[k as int] != id {
                    let m = choose|m: int| 0 <= m < after.len() && after[m] == id;
                    assert(before[m] == id);
                }
                if before.contains(id) {
                    let m = choose|m: int| 0 <= m < before.len() && before[m] == id;
                    assert(after[m] == id);
                }
                if row_ids@[k as int] == id {
                    assert(after[k as int] == id);
                }
            }
            k = k + 1;
        }
        assert(row_ids@.take(i as int).take(i as int) =~= row_ids@.take(i as int));
        if id <= 0 || seen {
            return Some(i);
        }
        i = i + 1;
    }
    None
}

/// The tags a restored state gives its row: each trimmed, blank ones left
/// out, and each only at its first occurrence.
pub open spec fn restored_tag_list(tags: Seq<Seq<char>>) -> Seq<Seq<char>> {
    keep_first_nonempty(tags.map_values(|t: Seq<char>| trim(t)))
}

/// The tags a restored state gives its row (see `restored_tag_list`).
pub fn restored_tags(tags: &Vec<String>) -> (r: Vec<String>)
    ensures
        string_views(r@) == restored_tag_list(string_views(tags@)),
{
    let ghost trimmed = string_views(tags@).map_values(|t: Seq<char>| trim(t));
    let mut out: Vec<Vec<char>> = Vec::new();
    let mut i: usize = 0;
    while i < tags.len()
        invariant
            i <= tags.len(),
            trimmed == string_views(tags@).map_values(|t: Seq<char>| trim(t)),
            views(out@) == keep_first_nonempty(trimmed.take(i as int)),
        decreases tags.len() - i,
    {
        let t = trim_chars(&chars_of(tags[i].as_str()));
        assert(t@ == trimmed[i as int]);
        assert(trimmed.take(i + 1).drop_last() =~= trimmed.take(i as int));
        push_new_nonempty(&mut out, t);
        i = i + 1;
    }
    assert(trimmed.take(i as int) =~= trimmed);
    let r = strings_of(&out);
    assert(string_views(r@) =~= views(out@));
    r
}

/// A stored row that a re-import may update.
#[derive(Debug, Clone, PartialEq, Eq)]
pub struct ExistingImageTarget {
    pub row_id: i64,
    pub identity: String,
    pub stored_image_path: Option<String>,
}

/// New metadata for a stored row.
#[derive(Debug, Clone, PartialEq, Eq)]
pub struct ExistingImageUpdate {
    pub row_id: i64,
    pub identity: String,
    pub image_path: String,
    pub source_size: Option<i64>,
    pub source_mtime: Option<i64>,
    pub positive_prompt: Option<String>,
    pub character_prompt: Option<String>,
    pub negative_prompt: Option<String>,
    pub artists: Option<String>,
    pub content_hash: Option<String>,
    pub perceptual_hash: Option<String>,
    pub metadata_fingerprint: Option<String>,
    pub stored_image_path: Option<String>,
    pub stored_image_is_original: bool,
}

/// Where the image of a row can be found.
#[derive(Debug, Clone, PartialEq, Eq)]
pub struct RowImageLocator {
    pub row_id: i64,
    pub image_path: Option<String>,
    /// The managed copy, relative to the data directory.
    pub stored_image_path: Option<String>,
    /// Whether the managed copy is the full original.
    pub stored_image_is_original: bool,
}

/// A reusable prompt material.
#[derive(Debug, Clone)]
pub struct Material {
    pub id: i64,
    pub title: String,
    pub text: String,
    pub tags: Vec<String>,
    pub updated_at: String,
    pub versions: Vec<MaterialVersion>,
}

/// One version of a material.
#[derive(Debug, Clone)]
pub struct MaterialVersion {
    pub id: i64,
    pub name: String,
    pub text: String,
    pub has_image: bool,
}

/// A version of a material as the editor submits it.
#[derive(Debug, Clone)]
pub struct MaterialVersionDraft {
    pub id: Option<i64>,
    pub name: String,
    pub text: String,
    pub image_path: Option<String>,
    pub image_source_id: Option<i64>,
}

/// A material as the editor submits it.
#[derive(Debug)]
pub struct MaterialDraft {
    pub id: Option<i64>,
    pub title: String,
    pub text: String,
    pub tags: Vec<String>,
    pub image_path: Option<String>,
    pub versions: Option<Vec<MaterialVersionDraft>>,
}

/// One page of materials.
#[derive(Debug)]
pub struct MaterialPage {
    pub items: Vec<Material>,
    pub total: u64,
}

/// How many rows a prompt edit changed.
#[derive(Debug, Clone, PartialEq, Eq)]
pub struct PromptEditResult {
    pub affected_rows: u64,
}

/// What editing one row's prompt changed.
#[derive(Debug, Clone, PartialEq, Eq)]
pub struct SinglePromptEditResult {
    pub affected_rows: u64,
    pub new_artists: Option<String>,
    pub artist_llm: Option<String>,
}

/// The title a material is saved under: trimmed, a fixed name when blank.
pub open spec fn material_title_text(title: Seq<char>) -> Seq<char> {
    if trim(title).len() == 0 {
        "未命名素材"@
    } else {
        trim(title)
    }
}

/// The title a material is saved under (see `material_title_text`).
pub fn material_title(title: &str) -> (r: String)
    ensures
        r@ == material_title_text(title@),
{
    let t = trim_chars(&chars_of(title));
    if t.len() == 0 {
        "未命名素材".to_owned()
    } else {
        string_of(&t)
    }
}

/// The name a version at `position` (from 0) is saved under: trimmed, or
/// `版本 ` and its number from 1 when blank.
pub open spec fn version_name_text(name: Seq<char>, position: nat) -> Seq<char> {
    if trim(name).len() == 0 {
        "版本 "@ + decimal_text((position + 1) as int)
    } else {
        trim(name)
    }
}

/// The name a version is saved under (see `version_name_text`).
pub fn version_name(name: &str, position: usize) -> (r: String)
    requires
        position < u64::MAX,
    ensures
        r@ == version_name_text(name@, position as nat),
{
    let t = trim_chars(&chars_of(name));
    if t.len() == 0 {
        let mut out = chars_of("版本 ");
        let digits = unsigned_digits((position as u64) + 1);
        append_chars(&mut out, &digits);
        string_of(&out)
    } else {
        string_of(&t)
    }
}

/// Whether a list of versions can be saved: one to 128 versions, and
/// either no version images or one entry per version.
pub open spec fn versions_acceptable_spec(versions: nat, images: nat) -> bool {
    1 <= versions <= 128 && (images == 0 || images == versions)
}

/// Whether a list of material versions can be saved (see `versions_acceptable_spec`).
pub fn versions_acceptable(versions: usize, images: usize) -> (r: bool)
    ensures
        r == versions_acceptable_spec(versions as nat, images as nat),
{
    versions >= 1 && versions <= 128 && (images == 0 || images == versions)
}

/// The name a group is created or renamed to: trimmed; a blank name is
/// refused.
pub fn group_name(name: &str) -> (r: Result<String, DatabaseError>)
    ensures
        trim(name@).len() == 0 ==> (r matches Err(DatabaseError::EmptyGroupName)),
        trim(name@).len() > 0 ==> (r matches Ok(s) && s@ == trim(name@)),
{
    let t = trim_chars(&chars_of(name));
    if t.len() == 0 {
        Err(DatabaseError::EmptyGroupName)
    } else {
        Ok(string_of(&t))
    }
}

/// The note a row stores: trimmed; a blank note is stored as absent.
pub fn stored_note(note: &str) -> (r: Option<String>)
    ensures
        trim(note@).len() == 0 ==> r is None,
        trim(note@).len() > 0 ==> (r matches Some(s) && s@ == trim(note@)),
{
    let t = trim_chars(&chars_of(note));
    if t.len() == 0 {
        None
    } else {
        Some(string_of(&t))
    }
}

/// Whether the row at `i` starts a group of consecutive rows with one key.
pub open spec fn starts_group(keys: Seq<Seq<char>>, i: int) -> bool {
    0 <= i < keys.len() && (i == 0 || keys[i] != keys[i - 1])
}

/// Where the groups of consecutive equal keys start, in order: duplicate
/// rows come ordered by key and gather into one group per key.
pub fn group_starts(keys: &Vec<String>) -> (r: Vec<usize>)
    ensures
        forall|k: int| 0 <= k < r@.len() ==> starts_group(string_views(keys@), #[trigger] r@[k] as int),
        forall|i: int| starts_group(string_views(keys@), i) ==> r@.contains(i as usize),
        forall|a: int, b: int| 0 <= a < b < r@.len() ==> #[trigger] r@[a] < #[trigger] r@[b],
{
    let ghost kv = string_views(keys@);
    let mut out: Vec<usize> = Vec::new();
    let mut i: usize = 0;
    while i < keys.len()
        invariant
            i <= keys.len(),
            kv == string_views(keys@),
            forall|k: int| 0 <= k < out@.len() ==> starts_group(kv, #[trigger] out@[k] as int) && out@[k] < i,
            forall|j: int| 0 <= j < i && starts_group(kv, j) ==> out@.contains(j as usize),
            forall|a: int, b: int| 0 <= a < b < out@.len() ==> #[trigger] out@[a] < #[trigger] out@[b],
        decreases keys.len() - i,
    {
        let starts = if i == 0 {
            true
        } else {
            !chars_eq(&chars_of(keys[i].as_str()), &chars_of(keys[i - 1].as_str()))
        };
        assert(kv[i as int] == keys@[i as int]@);
        if i > 0 {
            assert(kv[i - 1] == keys@[i - 1]@);
        }
        if starts {
            let ghost before = out@;
            out.push(i);
            assert forall|j: int| 0 <= j < i + 1 && starts_group(kv, j) implies out@.contains(j as usize) by {
                if j < i {
                    let k = choose|k: int| 0 <= k < before.len() && before[k] == j as usize;
                    assert(out@[k] == j as usize);
                } else {
                    assert(out@[before.len() as int] == i);
                }
            }
        }
        i = i + 1;
    }
    out
}

/// Whether version `i` of a save names a stored version that cannot be
/// kept: its id belongs to another material (`owners[i]` is the stored
/// owner, `None` when no such version exists), or an earlier version of the
/// save already names it.
pub open spec fn unkeepable_version(material_id: i64, ids: Seq<Option<i64>>, owners: Seq<Option<i64>>, i: int) -> bool {
    ids[i] matches Some(id) && (owners[i] != Some(material_id) || ids.take(i).contains(Some(id)))
}

/// The first version of a save whose id cannot be kept (see
/// `unkeepable_version`); `None` when every one can. Saving fails there.
pub fn first_unkeepable_version(material_id: i64, ids: &Vec<Option<i64>>, owners: &Vec<Option<i64>>) -> (r: Option<usize>)
    requires
        ids.len() == owners.len(),
    ensures
        match r {
            Some(i) => i < ids.len() && unkeepable_version(material_id, ids@, owners@, i as int) && forall|j: int|
                0 <= j < i ==> !#[trigger] unkeepable_version(material_id, ids@, owners@, j),
            None => forall|j: int| 0 <= j < ids.len() ==> !#[trigger] unkeepable_version(material_id, ids@, owners@, j),
        },
{
    let mut i: usize = 0;
    while i < ids.len()
        invariant
            i <= ids.len(),
            ids.len() == owners.len(),
            forall|j: int| 0 <= j < i ==> !#[trigger] unkeepable_version(material_id, ids@, owners@, j),
        decreases ids.len() - i,
    {
        if let Some(id) = ids[i] {
            let owned = match owners[i] {
                Some(owner) => owner == material_id,
                None => false,
            };
            let mut seen = false;
            let mut k: usize = 0;
            while k < i
                invariant
                    k <= i < ids.len(),
                    ids@[i as int] == Some(id),
                    seen <==> ids@.take(k as int).contains(Some(id)),
                decreases i - k,
            {
                let ghost before = ids@.take(k as int);
                let ghost after = ids@.take(k + 1);
                assert(after =~= before.push(ids@[k as int]));
                if ids[k] == Some(id) {
                    seen = true;
                }
                assert(after.contains(Some(id)) <==> (before.contains(Some(id)) || ids@[k as int] == Some(id))) by {
                    if after.contains(Some(id)) && ids@[k as int] != Some(id) {
                        let m = choose|m: int| 0 <= m < after.len() && after[m] == Some(id);
                        assert(before[m] == Some(id));
                    }
                    if before.contains(Some(id)) {
                        let m = choose|m: int| 0 <= m < before.len() && before[m] == Some(id);
                        assert(after[m] == Some(id));
                    }
                    if ids@[k as int] == Some(id) {
                        assert(after[k as int] == Some(id));
                    }
                }
                k = k + 1;
            }
            if !owned || seen {
                return Some(i);
            }
        }
        i = i + 1;
    }
    None
}

/// Where a saved version's image comes from.
#[derive(Debug, Clone, Copy, PartialEq, Eq, Structural)]
pub enum VersionImageSource {
    /// The image uploaded with the save for this version.
    Uploaded,
    /// The image of the stored version with this id, of the same material.
    CopiedFrom(i64),
    /// No image.
    NoImage,
}

/// A version's image source: an image uploaded for it comes first, then the
/// stored version it names as its image source, else none.
pub fn version_image_source(uploaded: bool, source_id: Option<i64>) -> (r: VersionImageSource)
    ensures
        uploaded ==> r == VersionImageSource::Uploaded,
        !uploaded && source_id is Some ==> r == VersionImageSource::CopiedFrom(source_id->0),
        !uploaded && source_id is None ==> r == VersionImageSource::NoImage,
{
    if uploaded {
        VersionImageSource::Uploaded
    } else {
        match source_id {
            Some(id) => VersionImageSource::CopiedFrom(id),
            None => VersionImageSource::NoImage,
        }
    }
}

} // verus!
