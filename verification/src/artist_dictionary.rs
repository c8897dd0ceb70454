//! The artist dictionary: every name under which an artist can appear in a
//! prompt (the artist tag, the artist's other names, and tag aliases that
//! lead to it), each with the artist identity it stands for.
use vstd::prelude::*;

use crate::errors::DatabaseError;
use crate::name_index::{seq_lt, NameIndex};
use crate::batches::{decimal_digits, unsigned_digits};
use crate::text::{
    append_chars, ascii_lower, ascii_lower_char, chars_of, lowercase, lowercase_chars, string_of, trim,
    trim_chars, views, contains_chars,
};

verus! {

/// The name is an artist tag.
pub const SOURCE_TAG: u32 = 1;
/// The name is an artist record's current name.
pub const SOURCE_ARTIST_NAME: u32 = 2;
/// The name is one of an artist record's other names.
pub const SOURCE_OTHER_NAME: u32 = 4;
/// The name is a tag alias leading to an artist.
pub const SOURCE_ALIAS: u32 = 8;

/// A tag as Danbooru lists it; category 1 marks artist tags.
#[derive(Debug, Clone, PartialEq, Eq)]
pub struct DanbooruArtistTag {
    pub id: i64,
    pub name: String,
    pub post_count: u64,
    pub category: u32,
    pub is_deprecated: bool,
}

/// An artist record as Danbooru lists it.
#[derive(Debug, Clone, PartialEq, Eq)]
pub struct DanbooruArtistRecord {
    pub id: i64,
    pub name: String,
    pub other_names: Vec<String>,
    pub is_deleted: bool,
    pub is_banned: bool,
}

/// A tag alias as Danbooru lists it.
#[derive(Debug, Clone, PartialEq, Eq)]
pub struct DanbooruTagAlias {
    pub id: i64,
    pub antecedent_name: String,
    pub consequent_name: String,
    pub status: String,
}

/// Everything the dictionary is built from.
#[derive(Debug, Clone, Default, PartialEq, Eq)]
pub struct ArtistDictionaryInput {
    pub tags: Vec<DanbooruArtistTag>,
    pub artists: Vec<DanbooruArtistRecord>,
    pub aliases: Vec<DanbooruTagAlias>,
}

/// One name of the dictionary.
#[derive(Debug, Clone, PartialEq, Eq)]
pub struct ArtistDictionaryEntry {
    pub match_name: String,
    pub display_name: String,
    pub canonical_name: String,
    pub post_count: u64,
    pub is_banned: bool,
    pub is_deprecated: bool,
    pub is_ambiguous: bool,
    pub source_mask: u32,
}

/// When the stored dictionary was synchronised and how large it is.
#[derive(Debug, Clone, PartialEq, Eq)]
pub struct ArtistDictionaryStatus {
    pub synced_at: String,
    pub tag_count: u64,
    pub artist_count: u64,
    pub alias_count: u64,
    pub name_count: u64,
}

/// The first line of a bundled dictionary snapshot.
#[derive(Debug, Clone, PartialEq, Eq)]
pub struct BundledArtistDictionaryHeader {
    pub snapshot_at: String,
    pub tag_count: u64,
    pub artist_count: u64,
    pub alias_count: u64,
    pub name_count: u64,
}

/// The match key of a name: trimmed and lower-cased, absent when blank.
pub open spec fn name_key(name: Seq<char>) -> Option<Seq<char>> {
    let t = trim(name);
    if t.len() == 0 {
        None
    } else {
        Some(lowercase(t))
    }
}

/// The match key of `name`, absent when it is blank.
pub fn normalize_name(name: &Vec<char>) -> (r: Option<Vec<char>>)
    ensures
        match r {
            Some(k) => name_key(name@) == Some(k@),
            None => name_key(name@) is None,
        },
{
    let t = trim_chars(name);
    if t.len() == 0 {
        None
    } else {
        Some(lowercase_chars(&t))
    }
}

/// A name offered for the dictionary. `rank` orders identities: 0 for a
/// lone artist tag, 1 for a tag alias, 2 for a current artist record.
pub struct CandidateView {
    pub display: Seq<char>,
    pub canonical: Seq<char>,
    pub post_count: u64,
    pub banned: bool,
    pub deprecated: bool,
    pub mask: u32,
    pub rank: u8,
}

/// A dictionary entry while it is being built.
pub struct AccView {
    pub display: Seq<char>,
    pub canonical: Seq<char>,
    pub post_count: u64,
    pub banned: bool,
    pub deprecated: bool,
    pub ambiguous: bool,
    pub mask: u32,
    pub rank: u8,
}

pub open spec fn fresh_acc(c: CandidateView) -> AccView {
    AccView {
        display: c.display,
        canonical: c.canonical,
        post_count: c.post_count,
        banned: c.banned,
        deprecated: c.deprecated,
        ambiguous: false,
        mask: c.mask,
        rank: c.rank,
    }
}

/// Folding a further candidate for the same name into an entry: sources and
/// the highest post count are kept, a name is deprecated only if every
/// source says so, a higher-ranked identity replaces a lower one, and two
/// different artist records claiming one name make it ambiguous (the busier
/// artist wins).
pub open spec fn merge_acc(e: AccView, c: CandidateView) -> AccView {
    let prev = e.post_count;
    let base = AccView {
        mask: e.mask | c.mask,
        post_count: if prev >= c.post_count { prev } else { c.post_count },
        deprecated: e.deprecated && c.deprecated,
        ..e
    };
    if c.rank > e.rank {
        AccView { display: c.display, canonical: c.canonical, banned: c.banned, rank: c.rank, ..base }
    } else if c.rank == e.rank {
        let ec = name_key(e.canonical);
        let cc = name_key(c.canonical);
        if ec != cc && c.rank >= 2 {
            if c.post_count > prev {
                AccView { ambiguous: true, canonical: c.canonical, banned: c.banned, ..base }
            } else {
                AccView { ambiguous: true, ..base }
            }
        } else if ec == cc {
            AccView { banned: c.banned, ..base }
        } else {
            base
        }
    } else {
        base
    }
}

/// `m` after offering candidate `c` for name `k`.
pub open spec fn merge_into(m: Map<Seq<char>, AccView>, k: Seq<char>, c: CandidateView) -> Map<
    Seq<char>,
    AccView,
> {
    m.insert(
        k,
        if m.contains_key(k) {
            merge_acc(m[k], c)
        } else {
            fresh_acc(c)
        },
    )
}

/// An entry while it is being built.
struct Acc {
    display: Vec<char>,
    canonical: Vec<char>,
    post_count: u64,
    banned: bool,
    deprecated: bool,
    ambiguous: bool,
    mask: u32,
    rank: u8,
}

impl Acc {
    spec fn view(&self) -> AccView {
        AccView {
            display: self.display@,
            canonical: self.canonical@,
            post_count: self.post_count,
            banned: self.banned,
            deprecated: self.deprecated,
            ambiguous: self.ambiguous,
            mask: self.mask,
            rank: self.rank,
        }
    }
}

/// A candidate name.
struct Candidate {
    display: Vec<char>,
    canonical: Vec<char>,
    post_count: u64,
    banned: bool,
    deprecated: bool,
    mask: u32,
    rank: u8,
}

impl Candidate {
    spec fn view(&self) -> CandidateView {
        CandidateView {
            display: self.display@,
            canonical: self.canonical@,
            post_count: self.post_count,
            banned: self.banned,
            deprecated: self.deprecated,
            mask: self.mask,
            rank: self.rank,
        }
    }
}

fn copy_chars(v: &Vec<char>) -> (r: Vec<char>)
    ensures
        r@ == v@,
{
    let r = crate::text::sub_chars(v, 0, v.len());
    assert(v@.subrange(0, v@.len() as int) =~= v@);
    r
}

fn opt_chars_eq(a: &Option<Vec<char>>, b: &Option<Vec<char>>) -> (r: bool)
    ensures
        r == (match (a, b) {
            (Some(x), Some(y)) => x@ == y@,
            (None, None) => true,
            _ => false,
        }),
{
    match (a, b) {
        (Some(x), Some(y)) => crate::text::chars_eq(x, y),
        (None, None) => true,
        _ => false,
    }
}

/// The entries built so far: names with their entries.
struct Entries {
    index: NameIndex,
    accs: Vec<Acc>,
}

impl Entries {
    spec fn wf(&self) -> bool {
        &&& self.index.wf()
        &&& self.accs.len() == self.index.count()
    }

    spec fn view(&self) -> Map<Seq<char>, AccView> {
        Map::new(
            |k: Seq<char>| self.index.view().contains_key(k),
            |k: Seq<char>| self.accs@[self.index.view()[k] as int].view(),
        )
    }

    fn new() -> (r: Self)
        ensures
            r.wf(),
            r.view() == Map::<Seq<char>, AccView>::empty(),
    {
        let r = Entries { index: NameIndex::new(), accs: Vec::new() };
        assert(r.view() =~= Map::<Seq<char>, AccView>::empty());
        r
    }

    /// Offers candidate `c` for name `key`.
    fn merge_candidate(&mut self, key: &Vec<char>, c: Candidate)
        requires
            old(self).wf(),
        ensures
            final(self).wf(),
            final(self).view() == merge_into(old(self).view(), key@, c.view()),
    {
        proof {
            self.index.lemma_wf_facts();
        }
        let ghost old_view = self.view();
        match self.index.get(key) {
            None => {
                let (pos, _) = self.index.insert(key);
                let acc = Acc {
                    display: c.display,
                    canonical: c.canonical,
                    post_count: c.post_count,
                    banned: c.banned,
                    deprecated: c.deprecated,
                    ambiguous: false,
                    mask: c.mask,
                    rank: c.rank,
                };
                self.accs.push(acc);
                proof {
                    self.index.lemma_wf_facts();
                    assert(self.view() =~= merge_into(old_view, key@, c.view())) by {
                        assert forall|k: Seq<char>| #[trigger] self.view().contains_key(k) && k != key@
                            implies self.view()[k] == old_view[k] by {
                            assert(self.index.view()[k] < pos);
                        }
                    }
                }
            },
            Some(pos) => {
                let ghost e = self.accs@[pos as int].view();
                let cur = &self.accs[pos];
                let mut acc = Acc {
                    display: copy_chars(&cur.display),
                    canonical: copy_chars(&cur.canonical),
                    post_count: cur.post_count,
                    banned: cur.banned,
                    deprecated: cur.deprecated,
                    ambiguous: cur.ambiguous,
                    mask: cur.mask,
                    rank: cur.rank,
                };
                let prev = acc.post_count;
                acc.mask = acc.mask | c.mask;
                acc.post_count = if prev >= c.post_count { prev } else { c.post_count };
                acc.deprecated = acc.deprecated && c.deprecated;
                if c.rank > acc.rank {
                    acc.display = c.display;
                    acc.canonical = c.canonical;
                    acc.banned = c.banned;
                    acc.rank = c.rank;
                } else if c.rank == acc.rank {
                    let ec = normalize_name(&acc.canonical);
                    let cc = normalize_name(&c.canonical);
                    let same = opt_chars_eq(&ec, &cc);
                    proof {
                        assert(same == (name_key(e.canonical) == name_key(c.canonical@)));
                    }
                    if !same && c.rank >= 2 {
                        acc.ambiguous = true;
                        if c.post_count > prev {
                            acc.canonical = c.canonical;
                            acc.banned = c.banned;
                        }
                    } else if same {
                        acc.banned = c.banned;
                    }
                }
                assert(acc.view() == merge_acc(e, c.view()));
                self.accs.set(pos, acc);
                proof {
                    assert(self.view() =~= merge_into(old_view, key@, c.view())) by {
                        assert forall|k: Seq<char>| #[trigger] self.view().contains_key(k) && k != key@
                            implies self.view()[k] == old_view[k] by {
                            assert(self.index.view()[k] != pos);
                            if self.index.view()[k] < pos {
                            } else {
                            }
                        }
                    }
                }
            },
        }
    }
}

} // verus!

verus! {

/// The candidate an artist tag offers for its own name.
pub open spec fn tag_candidate(t: DanbooruArtistTag) -> CandidateView {
    CandidateView {
        display: trim(t.name@),
        canonical: trim(t.name@),
        post_count: t.post_count,
        banned: false,
        deprecated: t.is_deprecated,
        mask: SOURCE_TAG,
        rank: 0,
    }
}

pub open spec fn is_artist_tag(t: DanbooruArtistTag) -> bool {
    t.category == 1 && name_key(t.name@) is Some
}

/// For each match key, the position of the last artist tag among the first
/// `n` tags that has that key.
pub open spec fn tag_positions(tags: Seq<DanbooruArtistTag>, n: int) -> Map<Seq<char>, int>
    decreases n,
{
    if n <= 0 {
        Map::empty()
    } else {
        let m = tag_positions(tags, n - 1);
        let t = tags[n - 1];
        if is_artist_tag(t) {
            m.insert(name_key(t.name@)->0, n - 1)
        } else {
            m
        }
    }
}

/// The artist tag with each match key (the last one when several share it).
pub open spec fn tag_lookup(tags: Seq<DanbooruArtistTag>) -> Map<Seq<char>, DanbooruArtistTag> {
    let p = tag_positions(tags, tags.len() as int);
    Map::new(|k: Seq<char>| p.contains_key(k), |k: Seq<char>| tags[p[k]])
}

/// The entries that the artist tags alone give.
pub open spec fn tag_entries(tags: Seq<DanbooruArtistTag>) -> Map<Seq<char>, AccView> {
    let l = tag_lookup(tags);
    Map::new(|k: Seq<char>| l.contains_key(k), |k: Seq<char>| fresh_acc(tag_candidate(l[k])))
}

pub proof fn lemma_tag_positions_bounds(tags: Seq<DanbooruArtistTag>, n: int)
    requires
        0 <= n <= tags.len(),
    ensures
        forall|k: Seq<char>| #[trigger] tag_positions(tags, n).contains_key(k) ==> 0 <= tag_positions(tags, n)[k] < n
            && is_artist_tag(tags[tag_positions(tags, n)[k]])
            && name_key(tags[tag_positions(tags, n)[k]].name@) == Some(k),
        tag_positions(tags, n).dom().finite(),
    decreases n,
{
    if n > 0 {
        lemma_tag_positions_bounds(tags, n - 1);
    }
}

/// The artist tags by match key, as positions into the tag list.
struct TagTable {
    index: NameIndex,
    which: Vec<usize>,
}

impl TagTable {
    spec fn wf(&self) -> bool {
        self.index.wf() && self.which.len() == self.index.count()
    }

    spec fn view(&self) -> Map<Seq<char>, int> {
        Map::new(
            |k: Seq<char>| self.index.view().contains_key(k),
            |k: Seq<char>| self.which@[self.index.view()[k] as int] as int,
        )
    }

    fn build(tags: &Vec<DanbooruArtistTag>) -> (r: Self)
        ensures
            r.wf(),
            r.view() == tag_positions(tags@, tags@.len() as int),
    {
        let mut table = TagTable { index: NameIndex::new(), which: Vec::new() };
        assert(table.view() =~= tag_positions(tags@, 0));
        let mut i: usize = 0;
        while i < tags.len()
            invariant
                i <= tags.len(),
                table.wf(),
                table.view() == tag_positions(tags@, i as int),
            decreases tags.len() - i,
        {
            let t = &tags[i];
            let ghost before = table.view();
            if t.category == 1 {
                let name = chars_of(t.name.as_str());
                match normalize_name(&name) {
                    Some(key) => {
                        proof {
                            table.index.lemma_wf_facts();
                        }
                        let (pos, fresh) = table.index.insert(&key);
                        if fresh {
                            table.which.push(i);
                        } else {
                            table.which.set(pos, i);
                        }
                        proof {
                            table.index.lemma_wf_facts();
                            assert(table.view() =~= before.insert(key@, i as int)) by {
                                assert forall|k: Seq<char>| #[trigger] table.view().contains_key(k) && k != key@
                                    implies table.view()[k] == before[k] by {
                                    assert(table.index.view()[k] != pos);
                                }
                            }
                        }
                    },
                    None => {},
                }
            }
            i = i + 1;
            assert(table.view() =~= tag_positions(tags@, i as int));
        }
        table
    }

    fn get(&self, key: &Vec<char>) -> (r: Option<usize>)
        requires
            self.wf(),
        ensures
            r == (if self.view().contains_key(key@) { Some(self.view()[key@] as usize) } else { None::<usize> }),
    {
        match self.index.get(key) {
            Some(pos) => {
                proof {
                    self.index.lemma_wf_facts();
                }
                Some(self.which[pos])
            },
            None => None,
        }
    }
}

} // verus!

verus! {

fn tag_candidate_exec(t: &DanbooruArtistTag) -> (r: Candidate)
    ensures
        r.view() == tag_candidate(*t),
{
    let name = chars_of(t.name.as_str());
    let display = trim_chars(&name);
    let canonical = copy_chars(&display);
    Candidate {
        display,
        canonical,
        post_count: t.post_count,
        banned: false,
        deprecated: t.is_deprecated,
        mask: SOURCE_TAG,
        rank: 0,
    }
}

/// The entries given by the artist tags alone.
fn initial_entries(tags: &Vec<DanbooruArtistTag>, table: &TagTable) -> (r: Entries)
    requires
        table.wf(),
        table.view() == tag_positions(tags@, tags@.len() as int),
    ensures
        r.wf(),
        r.view() == tag_entries(tags@),
{
    let mut entries = Entries::new();
    let n = table.which.len();
    let mut p: usize = 0;
    proof {
        lemma_tag_positions_bounds(tags@, tags@.len() as int);
    }
    assert(entries.view() =~= Map::new(
        |k: Seq<char>| table.index.view().contains_key(k) && table.index.view()[k] < 0,
        |k: Seq<char>| fresh_acc(tag_candidate(tags@[table.view()[k]])),
    ));
    while p < n
        invariant
            n == table.which.len() == table.index.count(),
            table.wf(),
            table.view() == tag_positions(tags@, tags@.len() as int),
            forall|k: Seq<char>| #[trigger] tag_positions(tags@, tags@.len() as int).contains_key(k)
                ==> 0 <= tag_positions(tags@, tags@.len() as int)[k] < tags@.len(),
            p <= n,
            entries.wf(),
            entries.view() == Map::new(
                |k: Seq<char>| table.index.view().contains_key(k) && table.index.view()[k] < p,
                |k: Seq<char>| fresh_acc(tag_candidate(tags@[table.view()[k]])),
            ),
        decreases n - p,
    {
        let key = table.index.name_at(p);
        proof {
            table.index.lemma_name_of(p as int);
        }
        let which = table.which[p];
        assert(tag_positions(tags@, tags@.len() as int).contains_key(key@));
        let c = tag_candidate_exec(&tags[which]);
        let ghost before = entries.view();
        proof {
            assert(!before.contains_key(key@));
        }
        entries.merge_candidate(key, c);
        p = p + 1;
        proof {
            assert(entries.view() =~= Map::new(
                |k: Seq<char>| table.index.view().contains_key(k) && table.index.view()[k] < p,
                |k: Seq<char>| fresh_acc(tag_candidate(tags@[table.view()[k]])),
            )) by {
                assert forall|k: Seq<char>| table.index.view().contains_key(k) && table.index.view()[k] < p
                    implies #[trigger] entries.view().contains_key(k) by {
                    if table.index.view()[k] == p - 1 {
                        table.index.lemma_wf_facts();
                    }
                }
            }
        }
    }
    proof {
        table.index.lemma_wf_facts();
        assert(entries.view() =~= tag_entries(tags@)) by {
            assert forall|k: Seq<char>| #[trigger] tag_entries(tags@).contains_key(k)
                implies entries.view().contains_key(k) by {
            }
        }
    }
    entries
}

} // verus!

verus! {

/// The first position at or after `j` in `order` whose artist id exceeds `id`.
pub open spec fn first_greater_id(
    artists: Seq<DanbooruArtistRecord>,
    order: Seq<usize>,
    id: i64,
    j: int,
) -> int
    decreases order.len() - j,
{
    if j < 0 || j >= order.len() {
        order.len() as int
    } else if artists[order[j] as int].id > id {
        j
    } else {
        first_greater_id(artists, order, id, j + 1)
    }
}

/// The positions of the first `n` artists that are not deleted, in
/// ascending id order and, for equal ids, in input order (a stable sort by
/// id, built by insertion).
pub open spec fn live_order(artists: Seq<DanbooruArtistRecord>, n: int) -> Seq<usize>
    decreases n,
{
    if n <= 0 {
        Seq::empty()
    } else {
        let s = live_order(artists, n - 1);
        let a = artists[n - 1];
        if a.is_deleted {
            s
        } else {
            let p = first_greater_id(artists, s, a.id, 0);
            s.take(p) + seq![(n - 1) as usize] + s.skip(p)
        }
    }
}

pub proof fn lemma_first_greater_id_bounds(
    artists: Seq<DanbooruArtistRecord>,
    order: Seq<usize>,
    id: i64,
    j: int,
)
    requires
        0 <= j <= order.len(),
    ensures
        j <= first_greater_id(artists, order, id, j) <= order.len(),
    decreases order.len() - j,
{
    if j < order.len() && artists[order[j] as int].id <= id {
        lemma_first_greater_id_bounds(artists, order, id, j + 1);
    }
}

pub proof fn lemma_live_order_bounds(artists: Seq<DanbooruArtistRecord>, n: int)
    requires
        0 <= n <= artists.len(),
    ensures
        forall|j: int| 0 <= j < live_order(artists, n).len() ==> #[trigger] live_order(artists, n)[j] < n,
        live_order(artists, n).len() <= n,
    decreases n,
{
    if n > 0 {
        lemma_live_order_bounds(artists, n - 1);
        let s = live_order(artists, n - 1);
        if !artists[n - 1].is_deleted {
            lemma_first_greater_id_bounds(artists, s, artists[n - 1].id, 0);
            let p = first_greater_id(artists, s, artists[n - 1].id, 0);
            let r = live_order(artists, n);
            assert forall|j: int| 0 <= j < r.len() implies #[trigger] r[j] < n by {
                if j < p {
                    assert(r[j] == s[j]);
                } else if j > p {
                    assert(r[j] == s[j - 1]);
                }
            }
        }
    }
}

/// The artists that are not deleted, stably sorted by id.
fn live_artist_order(artists: &Vec<DanbooruArtistRecord>) -> (r: Vec<usize>)
    ensures
        r@ == live_order(artists@, artists@.len() as int),
{
    let mut order: Vec<usize> = Vec::new();
    let mut i: usize = 0;
    while i < artists.len()
        invariant
            i <= artists.len(),
            order@ == live_order(artists@, i as int),
        decreases artists.len() - i,
    {
        proof {
            lemma_live_order_bounds(artists@, i as int);
        }
        if !artists[i].is_deleted {
            let id = artists[i].id;
            let mut p: usize = 0;
            while p < order.len() && artists[order[p]].id <= id
                invariant
                    p <= order.len(),
                    order@ == live_order(artists@, i as int),
                    forall|j: int| 0 <= j < order.len() ==> #[trigger] order@[j] < i,
                    i < artists.len(),
                    id == artists@[i as int].id,
                    first_greater_id(artists@, order@, id, 0) == first_greater_id(artists@, order@, id, p as int),
                decreases order.len() - p,
            {
                p = p + 1;
            }
            let ghost before = order@;
            order.insert(p, i);
            assert(order@ =~= before.take(p as int) + seq![i] + before.skip(p as int));
        }
        i = i + 1;
    }
    order
}

/// The names of an artist record with where each comes from.
pub open spec fn artist_names(a: DanbooruArtistRecord) -> Seq<(Seq<char>, u32)> {
    seq![(a.name@, SOURCE_ARTIST_NAME)] + a.other_names@.map_values(
        |n: String| (n@, SOURCE_OTHER_NAME),
    )
}

/// The names that have a match key: (name, key, source).
pub open spec fn keyed_names(names: Seq<(Seq<char>, u32)>) -> Seq<(Seq<char>, Seq<char>, u32)>
    decreases names.len(),
{
    if names.len() == 0 {
        Seq::empty()
    } else {
        let r = keyed_names(names.drop_last());
        let (raw, source) = names.last();
        match name_key(raw) {
            Some(k) => r.push((raw, k, source)),
            None => r,
        }
    }
}

/// The highest post count among the artist tags of these names, 0 if none.
pub open spec fn group_post_count(
    names: Seq<(Seq<char>, Seq<char>, u32)>,
    tl: Map<Seq<char>, DanbooruArtistTag>,
) -> u64
    decreases names.len(),
{
    if names.len() == 0 {
        0
    } else {
        let r = group_post_count(names.drop_last(), tl);
        let k = names.last().1;
        if tl.contains_key(k) && tl[k].post_count > r {
            tl[k].post_count
        } else {
            r
        }
    }
}

/// The candidate an artist record offers for one of its names.
pub open spec fn artist_candidate(
    a: DanbooruArtistRecord,
    raw: Seq<char>,
    k: Seq<char>,
    source: u32,
    group_post: u64,
    tl: Map<Seq<char>, DanbooruArtistTag>,
) -> CandidateView {
    CandidateView {
        display: trim(raw),
        canonical: trim(a.name@),
        post_count: group_post,
        banned: a.is_banned,
        deprecated: tl.contains_key(k) && tl[k].is_deprecated,
        mask: source | (if tl.contains_key(k) {
            SOURCE_TAG
        } else {
            0
        }),
        rank: 2,
    }
}

/// `m` after offering the first `n` keyed names of artist `a`.
pub open spec fn merge_names(
    m: Map<Seq<char>, AccView>,
    a: DanbooruArtistRecord,
    names: Seq<(Seq<char>, Seq<char>, u32)>,
    group_post: u64,
    tl: Map<Seq<char>, DanbooruArtistTag>,
    n: int,
) -> Map<Seq<char>, AccView>
    decreases n,
{
    if n <= 0 {
        m
    } else {
        let prev = merge_names(m, a, names, group_post, tl, n - 1);
        let (raw, k, source) = names[n - 1];
        merge_into(prev, k, artist_candidate(a, raw, k, source, group_post, tl))
    }
}

/// `m` after offering every name of artist `a` (nothing when its own name
/// is blank).
pub open spec fn merge_artist(
    m: Map<Seq<char>, AccView>,
    a: DanbooruArtistRecord,
    tl: Map<Seq<char>, DanbooruArtistTag>,
) -> Map<Seq<char>, AccView> {
    if name_key(a.name@) is None {
        m
    } else {
        let names = keyed_names(artist_names(a));
        merge_names(m, a, names, group_post_count(names, tl), tl, names.len() as int)
    }
}

/// `m` after offering the names of the first `n` artists in `order`.
pub open spec fn artist_entries(
    m: Map<Seq<char>, AccView>,
    artists: Seq<DanbooruArtistRecord>,
    order: Seq<usize>,
    tl: Map<Seq<char>, DanbooruArtistTag>,
    n: int,
) -> Map<Seq<char>, AccView>
    decreases n,
{
    if n <= 0 {
        m
    } else {
        merge_artist(artist_entries(m, artists, order, tl, n - 1), artists[order[n - 1] as int], tl)
    }
}

} // verus!

verus! {

struct KeyedName {
    raw: Vec<char>,
    key: Vec<char>,
    source: u32,
}

impl KeyedName {
    spec fn view(&self) -> (Seq<char>, Seq<char>, u32) {
        (self.raw@, self.key@, self.source)
    }
}

spec fn keyed_views(v: Seq<KeyedName>) -> Seq<(Seq<char>, Seq<char>, u32)> {
    v.map_values(|x: KeyedName| x.view())
}

fn artist_keyed_names(a: &DanbooruArtistRecord) -> (r: Vec<KeyedName>)
    ensures
        keyed_views(r@) == keyed_names(artist_names(*a)),
{
    let mut r: Vec<KeyedName> = Vec::new();
    let ghost names = artist_names(*a);
    let raw = chars_of(a.name.as_str());
    assert(names.take(1).drop_last() =~= Seq::<(Seq<char>, u32)>::empty());
    assert(names.take(1).last() == (a.name@, SOURCE_ARTIST_NAME));
    assert(keyed_names(names.take(1).drop_last()) =~= Seq::<(Seq<char>, Seq<char>, u32)>::empty());
    match normalize_name(&raw) {
        Some(key) => {
            r.push(KeyedName { raw, key, source: SOURCE_ARTIST_NAME });
        },
        None => {},
    }
    assert(keyed_views(r@) =~= keyed_names(names.take(1)));
    let mut i: usize = 0;
    while i < a.other_names.len()
        invariant
            i <= a.other_names.len(),
            names == artist_names(*a),
            names.len() == a.other_names.len() + 1,
            keyed_views(r@) == keyed_names(names.take(i + 1)),
        decreases a.other_names.len() - i,
    {
        let raw = chars_of(a.other_names[i].as_str());
        assert(names.take(i + 2).drop_last() =~= names.take(i + 1));
        assert(names.take(i + 2).last() == (a.other_names@[i as int]@, SOURCE_OTHER_NAME));
        let ghost before = keyed_views(r@);
        match normalize_name(&raw) {
            Some(key) => {
                r.push(KeyedName { raw, key, source: SOURCE_OTHER_NAME });
                assert(keyed_views(r@) =~= before.push(r@.last().view()));
            },
            None => {},
        }
        i = i + 1;
    }
    assert(names.take(a.other_names.len() + 1) =~= names);
    r
}

/// `tl` is the artist tag lookup of `tags` and `table` indexes it.
spec fn table_matches(table: &TagTable, tags: Seq<DanbooruArtistTag>) -> bool {
    &&& table.wf()
    &&& table.view() == tag_positions(tags, tags.len() as int)
    &&& forall|k: Seq<char>| #[trigger] tag_positions(tags, tags.len() as int).contains_key(k)
        ==> 0 <= tag_positions(tags, tags.len() as int)[k] < tags.len()
}

/// Offers every name of `a` for the dictionary.
fn merge_artist_exec(
    entries: &mut Entries,
    a: &DanbooruArtistRecord,
    tags: &Vec<DanbooruArtistTag>,
    table: &TagTable,
)
    requires
        old(entries).wf(),
        table_matches(table, tags@),
    ensures
        final(entries).wf(),
        final(entries).view() == merge_artist(old(entries).view(), *a, tag_lookup(tags@)),
{
    let ghost tl = tag_lookup(tags@);
    let canonical_raw = chars_of(a.name.as_str());
    if normalize_name(&canonical_raw).is_none() {
        return;
    }
    let canonical = trim_chars(&canonical_raw);
    let names = artist_keyed_names(a);
    let ghost kn = keyed_names(artist_names(*a));
    // the highest post count among the names' artist tags
    let mut group_post: u64 = 0;
    let mut j: usize = 0;
    assert(kn.take(0) =~= Seq::<(Seq<char>, Seq<char>, u32)>::empty());
    while j < names.len()
        invariant
            j <= names.len(),
            keyed_views(names@) == kn,
            table_matches(table, tags@),
            tl == tag_lookup(tags@),
            group_post == group_post_count(kn.take(j as int), tl),
        decreases names.len() - j,
    {
        assert(kn.take(j + 1).drop_last() =~= kn.take(j as int));
        assert(kn.take(j + 1).last() == names@[j as int].view());
        match table.get(&names[j].key) {
            Some(t) => {
                if tags[t].post_count > group_post {
                    group_post = tags[t].post_count;
                }
            },
            None => {},
        }
        j = j + 1;
    }
    assert(kn.take(names.len() as int) =~= kn);
    let ghost m0 = entries.view();
    let mut j: usize = 0;
    while j < names.len()
        invariant
            j <= names.len(),
            keyed_views(names@) == kn,
            table_matches(table, tags@),
            tl == tag_lookup(tags@),
            group_post == group_post_count(kn, tl),
            canonical@ == trim(a.name@),
            entries.wf(),
            entries.view() == merge_names(m0, *a, kn, group_post, tl, j as int),
        decreases names.len() - j,
    {
        let name = &names[j];
        assert(kn[j as int] == name.view());
        let tag = table.get(&name.key);
        let (deprecated, tag_bit) = match tag {
            Some(t) => (tags[t].is_deprecated, SOURCE_TAG),
            None => (false, 0),
        };
        let c = Candidate {
            display: trim_chars(&name.raw),
            canonical: copy_chars(&canonical),
            post_count: group_post,
            banned: a.is_banned,
            deprecated,
            mask: name.source | tag_bit,
            rank: 2,
        };
        assert(c.view() == artist_candidate(*a, name.raw@, name.key@, name.source, group_post, tl));
        entries.merge_candidate(&name.key, c);
        j = j + 1;
    }
}

} // verus!

verus! {

pub open spec fn active_word() -> Seq<char> {
    seq!['a', 'c', 't', 'i', 'v', 'e']
}

pub open spec fn retired_word() -> Seq<char> {
    seq!['r', 'e', 't', 'i', 'r', 'e', 'd']
}

pub open spec fn ascii_lowered(s: Seq<char>) -> Seq<char> {
    s.map_values(|c: char| ascii_lower(c))
}

/// The alias chosen for each antecedent key among the first `n` aliases,
/// with whether it is active: only active and retired aliases count, an
/// active one is never displaced by a retired one, and otherwise the later
/// alias wins.
pub open spec fn preferred(aliases: Seq<DanbooruTagAlias>, n: int) -> Map<Seq<char>, (Seq<char>, bool)>
    decreases n,
{
    if n <= 0 {
        Map::empty()
    } else {
        let m = preferred(aliases, n - 1);
        let al = aliases[n - 1];
        let status = ascii_lowered(al.status@);
        if status != active_word() && status != retired_word() {
            m
        } else {
            match (name_key(al.antecedent_name@), name_key(al.consequent_name@)) {
                (Some(a), Some(c)) => {
                    let is_active = status == active_word();
                    if m.contains_key(a) && m[a].1 && !is_active {
                        m
                    } else {
                        m.insert(a, (c, is_active))
                    }
                },
                _ => m,
            }
        }
    }
}

/// The alias map: antecedent key to consequent key.
pub open spec fn alias_map(aliases: Seq<DanbooruTagAlias>) -> Map<Seq<char>, Seq<char>> {
    let p = preferred(aliases, aliases.len() as int);
    Map::new(|k: Seq<char>| p.contains_key(k), |k: Seq<char>| p[k].0)
}

struct AliasTarget {
    consequent: Vec<char>,
    active: bool,
}

struct AliasTable {
    index: NameIndex,
    targets: Vec<AliasTarget>,
}

impl AliasTable {
    spec fn wf(&self) -> bool {
        self.index.wf() && self.targets.len() == self.index.count()
    }

    spec fn view(&self) -> Map<Seq<char>, (Seq<char>, bool)> {
        Map::new(
            |k: Seq<char>| self.index.view().contains_key(k),
            |k: Seq<char>|
                (
                    self.targets@[self.index.view()[k] as int].consequent@,
                    self.targets@[self.index.view()[k] as int].active,
                ),
        )
    }

    fn get(&self, key: &Vec<char>) -> (r: Option<&Vec<char>>)
        requires
            self.wf(),
        ensures
            match r {
                Some(c) => self.view().contains_key(key@) && self.view()[key@].0 == c@,
                None => !self.view().contains_key(key@),
            },
    {
        match self.index.get(key) {
            Some(pos) => {
                proof {
                    self.index.lemma_wf_facts();
                }
                Some(&self.targets[pos].consequent)
            },
            None => None,
        }
    }
}

fn word_eq(v: &Vec<char>, w: &Vec<char>) -> (r: bool)
    ensures
        r == (v@ == w@),
{
    crate::text::chars_eq(v, w)
}

fn ascii_lowered_exec(s: &str) -> (r: Vec<char>)
    ensures
        r@ == ascii_lowered(s@),
{
    let v = chars_of(s);
    let mut r: Vec<char> = Vec::new();
    let mut i: usize = 0;
    while i < v.len()
        invariant
            v@ == s@,
            i <= v.len(),
            r@ == ascii_lowered(v@.take(i as int)),
        decreases v.len() - i,
    {
        r.push(ascii_lower_char(v[i]));
        i = i + 1;
        assert(r@ =~= ascii_lowered(v@.take(i as int)));
    }
    assert(v@.take(v.len() as int) =~= v@);
    r
}

/// The preferred alias of each antecedent.
fn preferred_aliases(aliases: &Vec<DanbooruTagAlias>) -> (r: AliasTable)
    ensures
        r.wf(),
        r.view() == preferred(aliases@, aliases@.len() as int),
{
    let mut table = AliasTable { index: NameIndex::new(), targets: Vec::new() };
    assert(table.view() =~= preferred(aliases@, 0));
    let active = vec!['a', 'c', 't', 'i', 'v', 'e'];
    let retired = vec!['r', 'e', 't', 'i', 'r', 'e', 'd'];
    assert(active@ =~= active_word());
    assert(retired@ =~= retired_word());
    let mut i: usize = 0;
    while i < aliases.len()
        invariant
            i <= aliases.len(),
            active@ == active_word(),
            retired@ == retired_word(),
            table.wf(),
            table.view() == preferred(aliases@, i as int),
        decreases aliases.len() - i,
    {
        let al = &aliases[i];
        let status = ascii_lowered_exec(al.status.as_str());
        let is_active = word_eq(&status, &active);
        let is_retired = word_eq(&status, &retired);
        if is_active || is_retired {
            let ante_raw = chars_of(al.antecedent_name.as_str());
            let cons_raw = chars_of(al.consequent_name.as_str());
            match (normalize_name(&ante_raw), normalize_name(&cons_raw)) {
                (Some(ante), Some(cons)) => {
                    proof {
                        table.index.lemma_wf_facts();
                    }
                    let ghost before = table.view();
                    let keep = match table.index.get(&ante) {
                        Some(pos) => table.targets[pos].active && !is_active,
                        None => false,
                    };
                    if !keep {
                        let (pos, fresh) = table.index.insert(&ante);
                        let target = AliasTarget { consequent: cons, active: is_active };
                        if fresh {
                            table.targets.push(target);
                        } else {
                            table.targets.set(pos, target);
                        }
                        proof {
                            table.index.lemma_wf_facts();
                            assert(table.view() =~= before.insert(ante@, (cons@, is_active))) by {
                                assert forall|k: Seq<char>| #[trigger] table.view().contains_key(k) && k != ante@
                                    implies table.view()[k] == before[k] by {
                                    assert(table.index.view()[k] != pos);
                                }
                            }
                        }
                    }
                },
                _ => {},
            }
        }
        i = i + 1;
    }
    table
}

/// Following the alias chain from `cur`: the first name with no alias of
/// its own, when the entries hold it, the chain meets no name twice and it
/// takes fewer than `fuel` steps.
pub open spec fn resolve(
    aliases: Map<Seq<char>, Seq<char>>,
    entries: Map<Seq<char>, AccView>,
    cur: Seq<char>,
    seen: Set<Seq<char>>,
    fuel: nat,
) -> Option<Seq<char>>
    decreases fuel,
{
    if fuel == 0 {
        None
    } else if seen.contains(cur) {
        None
    } else if aliases.contains_key(cur) {
        resolve(aliases, entries, aliases[cur], seen.insert(cur), (fuel - 1) as nat)
    } else if entries.contains_key(cur) {
        Some(cur)
    } else {
        None
    }
}

/// The alias chain is followed for at most this many steps.
pub const ALIAS_CHAIN_LIMIT: usize = 64;

/// Resolution depends on the entries only where the chain can end, that is
/// off the antecedents; there it ends on a held name that has no alias.
pub proof fn lemma_resolve_ignores_antecedents(
    aliases: Map<Seq<char>, Seq<char>>,
    e1: Map<Seq<char>, AccView>,
    e2: Map<Seq<char>, AccView>,
    cur: Seq<char>,
    seen: Set<Seq<char>>,
    fuel: nat,
)
    requires
        forall|k: Seq<char>| !aliases.contains_key(k) ==> (#[trigger] e1.contains_key(k) == e2.contains_key(k)),
    ensures
        resolve(aliases, e1, cur, seen, fuel) == resolve(aliases, e2, cur, seen, fuel),
        resolve(aliases, e1, cur, seen, fuel) matches Some(t) ==> !aliases.contains_key(t)
            && e1.contains_key(t),
    decreases fuel,
{
    if fuel > 0 && !seen.contains(cur) && aliases.contains_key(cur) {
        lemma_resolve_ignores_antecedents(aliases, e1, e2, aliases[cur], seen.insert(cur), (fuel - 1) as nat);
    }
}

fn copy_chars_ref(v: &Vec<char>) -> (r: Vec<char>)
    ensures
        r@ == v@,
{
    copy_chars(v)
}

/// The name that the alias chain from `start` ends on (see `resolve`).
fn resolve_alias_target(start: &Vec<char>, aliases: &AliasTable, entries: &Entries) -> (r: Option<Vec<char>>)
    requires
        aliases.wf(),
        entries.wf(),
    ensures
        match r {
            Some(t) => resolve(
                Map::new(|k: Seq<char>| aliases.view().contains_key(k), |k: Seq<char>| aliases.view()[k].0),
                entries.view(),
                start@,
                Set::empty(),
                ALIAS_CHAIN_LIMIT as nat,
            ) == Some(t@),
            None => resolve(
                Map::new(|k: Seq<char>| aliases.view().contains_key(k), |k: Seq<char>| aliases.view()[k].0),
                entries.view(),
                start@,
                Set::empty(),
                ALIAS_CHAIN_LIMIT as nat,
            ) is None,
        },
{
    let ghost am = Map::new(|k: Seq<char>| aliases.view().contains_key(k), |k: Seq<char>| aliases.view()[k].0);
    let ghost target = resolve(am, entries.view(), start@, Set::empty(), ALIAS_CHAIN_LIMIT as nat);
    let mut current = copy_chars_ref(start);
    let mut seen: Vec<Vec<char>> = Vec::new();
    let mut step: usize = 0;
    assert(views(seen@).to_set() =~= Set::<Seq<char>>::empty());
    while step < ALIAS_CHAIN_LIMIT
        invariant
            aliases.wf(),
            entries.wf(),
            step <= ALIAS_CHAIN_LIMIT,
            am == Map::new(|k: Seq<char>| aliases.view().contains_key(k), |k: Seq<char>| aliases.view()[k].0),
            target == resolve(am, entries.view(), start@, Set::empty(), ALIAS_CHAIN_LIMIT as nat),
            target == resolve(am, entries.view(), current@, views(seen@).to_set(), (ALIAS_CHAIN_LIMIT - step) as nat),
        decreases ALIAS_CHAIN_LIMIT - step,
    {
        if contains_chars(&seen, &current) {
            return None;
        }
        let ghost old_seen = views(seen@);
        seen.push(copy_chars_ref(&current));
        assert(views(seen@) =~= old_seen.push(current@));
        proof {
            old_seen.lemma_push_to_set_commute(current@);
        }
        match aliases.get(&current) {
            Some(next) => {
                current = copy_chars_ref(next);
            },
            None => {
                proof {
                    entries.index.lemma_wf_facts();
                }
                if entries.index.get(&current).is_some() {
                    return Some(current);
                } else {
                    return None;
                }
            },
        }
        step = step + 1;
    }
    None
}

} // verus!

verus! {

/// The candidate an alias offers for its antecedent `a`, pointing at the
/// entry `t` its chain ends on.
pub open spec fn alias_candidate(a: Seq<char>, t: AccView, tl: Map<Seq<char>, DanbooruArtistTag>) -> CandidateView {
    CandidateView {
        display: if tl.contains_key(a) {
            trim(tl[a].name@)
        } else {
            a
        },
        canonical: t.canonical,
        post_count: t.post_count,
        banned: t.banned,
        deprecated: tl.contains_key(a) && tl[a].is_deprecated,
        mask: SOURCE_ALIAS | (if tl.contains_key(a) {
            SOURCE_TAG
        } else {
            0
        }),
        rank: 1,
    }
}

pub open spec fn alias_target(
    am: Map<Seq<char>, Seq<char>>,
    e: Map<Seq<char>, AccView>,
    a: Seq<char>,
) -> Option<Seq<char>> {
    resolve(am, e, am[a], Set::empty(), ALIAS_CHAIN_LIMIT as nat)
}

pub open spec fn aliased_entry(
    e: Map<Seq<char>, AccView>,
    am: Map<Seq<char>, Seq<char>>,
    tl: Map<Seq<char>, DanbooruArtistTag>,
    k: Seq<char>,
) -> AccView {
    let c = alias_candidate(k, e[alias_target(am, e, k)->0], tl);
    if e.contains_key(k) {
        merge_acc(e[k], c)
    } else {
        fresh_acc(c)
    }
}

/// `e` after every alias whose chain ends on a held name has offered its
/// antecedent.
pub open spec fn with_aliases(
    e: Map<Seq<char>, AccView>,
    am: Map<Seq<char>, Seq<char>>,
    tl: Map<Seq<char>, DanbooruArtistTag>,
) -> Map<Seq<char>, AccView> {
    Map::new(
        |k: Seq<char>| e.contains_key(k) || (am.contains_key(k) && alias_target(am, e, k) is Some),
        |k: Seq<char>|
            if am.contains_key(k) && alias_target(am, e, k) is Some {
                aliased_entry(e, am, tl, k)
            } else {
                e[k]
            },
    )
}

/// The dictionary built from `input`, by match key: the artist tags, then
/// the names of every artist record that is not deleted, in id order, then
/// the aliases.
pub open spec fn dictionary_entries(input: ArtistDictionaryInput) -> Map<Seq<char>, AccView> {
    let tags = input.tags@;
    let tl = tag_lookup(tags);
    let order = live_order(input.artists@, input.artists@.len() as int);
    let e = artist_entries(tag_entries(tags), input.artists@, order, tl, order.len() as int);
    with_aliases(e, alias_map(input.aliases@), tl)
}

/// `entry` is the dictionary entry for key `k` built as `a`.
pub open spec fn entry_is(entry: ArtistDictionaryEntry, k: Seq<char>, a: AccView) -> bool {
    &&& entry.match_name@ == k
    &&& entry.display_name@ == a.display
    &&& entry.canonical_name@ == a.canonical
    &&& entry.post_count == a.post_count
    &&& entry.is_banned == a.banned
    &&& entry.is_deprecated == a.deprecated
    &&& entry.is_ambiguous == a.ambiguous
    &&& entry.source_mask == a.mask
}

spec fn partially_aliased(
    e: Map<Seq<char>, AccView>,
    am: Map<Seq<char>, Seq<char>>,
    tl: Map<Seq<char>, DanbooruArtistTag>,
    pos: Map<Seq<char>, usize>,
    p: int,
) -> Map<Seq<char>, AccView> {
    Map::new(
        |k: Seq<char>|
            e.contains_key(k) || (am.contains_key(k) && pos[k] < p && alias_target(am, e, k) is Some),
        |k: Seq<char>|
            if am.contains_key(k) && pos[k] < p && alias_target(am, e, k) is Some {
                aliased_entry(e, am, tl, k)
            } else {
                e[k]
            },
    )
}

/// Builds the artist dictionary from Danbooru's artist tags, artist records
/// and tag aliases: one entry per match key, in code-point order of the key.
pub fn build_artist_dictionary(input: &ArtistDictionaryInput) -> (r: Vec<ArtistDictionaryEntry>)
    ensures
        r.len() == dictionary_entries(*input).dom().len(),
        forall|i: int|
            0 <= i < r.len() ==> #[trigger] dictionary_entries(*input).contains_key(r@[i].match_name@)
                && entry_is(r@[i], r@[i].match_name@, dictionary_entries(*input)[r@[i].match_name@]),
        forall|i: int, j: int|
            0 <= i < j < r.len() ==> seq_lt(#[trigger] r@[i].match_name@, #[trigger] r@[j].match_name@),
        forall|k: Seq<char>|
            #[trigger] dictionary_entries(*input).contains_key(k) ==> exists|i: int|
                0 <= i < r.len() && r@[i].match_name@ == k,
{
    let tags = &input.tags;
    let ghost tl = tag_lookup(tags@);
    let table = TagTable::build(tags);
    proof {
        lemma_tag_positions_bounds(tags@, tags@.len() as int);
    }
    let mut entries = initial_entries(tags, &table);
    let order = live_artist_order(&input.artists);
    proof {
        lemma_live_order_bounds(input.artists@, input.artists@.len() as int);
    }
    let ghost e1 = entries.view();
    let mut j: usize = 0;
    while j < order.len()
        invariant
            j <= order.len(),
            order@ == live_order(input.artists@, input.artists@.len() as int),
            forall|i: int| 0 <= i < order@.len() ==> #[trigger] order@[i] < input.artists@.len(),
            table_matches(&table, tags@),
            tl == tag_lookup(tags@),
            entries.wf(),
            entries.view() == artist_entries(e1, input.artists@, order@, tl, j as int),
        decreases order.len() - j,
    {
        merge_artist_exec(&mut entries, &input.artists[order[j]], tags, &table);
        j = j + 1;
    }
    let ghost e2 = entries.view();
    let aliases = preferred_aliases(&input.aliases);
    let ghost am = alias_map(input.aliases@);
    assert(am =~= Map::new(|k: Seq<char>| aliases.view().contains_key(k), |k: Seq<char>| aliases.view()[k].0));
    let ghost apos = aliases.index.view();
    let n = aliases.targets.len();
    let mut p: usize = 0;
    assert(entries.view() =~= partially_aliased(e2, am, tl, apos, 0));
    while p < n
        invariant
            n == aliases.targets.len() == aliases.index.count(),
            aliases.wf(),
            am == Map::new(|k: Seq<char>| aliases.view().contains_key(k), |k: Seq<char>| aliases.view()[k].0),
            apos == aliases.index.view(),
            p <= n,
            table_matches(&table, tags@),
            tl == tag_lookup(tags@),
            entries.wf(),
            entries.view() == partially_aliased(e2, am, tl, apos, p as int),
        decreases n - p,
    {
        let ante = aliases.index.name_at(p);
        proof {
            aliases.index.lemma_name_of(p as int);
        }
        let cons = &aliases.targets[p].consequent;
        assert(am[ante@] == cons@);
        let ghost cur = entries.view();
        proof {
            assert forall|k: Seq<char>| !am.contains_key(k) implies (#[trigger] cur.contains_key(k)
                == e2.contains_key(k)) by {}
            lemma_resolve_ignores_antecedents(am, cur, e2, cons@, Set::empty(), ALIAS_CHAIN_LIMIT as nat);
        }
        match resolve_alias_target(cons, &aliases, &entries) {
            None => {
                proof {
                    assert(entries.view() =~= partially_aliased(e2, am, tl, apos, p + 1));
                }
            },
            Some(t) => {
                proof {
                    entries.index.lemma_wf_facts();
                    assert(cur.contains_key(t@));
                    assert(!am.contains_key(t@));
                    assert(cur[t@] == e2[t@]);
                }
                let tpos = match entries.index.get(&t) {
                    Some(x) => x,
                    None => {
                        assert(false);
                        0
                    },
                };
                let target = &entries.accs[tpos];
                let (display, deprecated, tag_bit) = match table.get(ante) {
                    Some(ti) => (trim_chars(&chars_of(tags[ti].name.as_str())), tags[ti].is_deprecated, SOURCE_TAG),
                    None => (copy_chars(ante), false, 0),
                };
                let c = Candidate {
                    display,
                    canonical: copy_chars(&target.canonical),
                    post_count: target.post_count,
                    banned: target.banned,
                    deprecated,
                    mask: SOURCE_ALIAS | tag_bit,
                    rank: 1,
                };
                assert(c.view() == alias_candidate(ante@, e2[alias_target(am, e2, ante@)->0], tl));
                let key = copy_chars(ante);
                entries.merge_candidate(&key, c);
                proof {
                    aliases.index.lemma_wf_facts();
                    assert(entries.view() =~= partially_aliased(e2, am, tl, apos, p + 1)) by {
                        assert forall|k: Seq<char>| #[trigger] entries.view().contains_key(k) && k != ante@
                            implies entries.view()[k] == partially_aliased(e2, am, tl, apos, p + 1)[k] by {
                            if am.contains_key(k) {
                                assert(apos[k] != p);
                            }
                        }
                        assert forall|k: Seq<char>| #[trigger] partially_aliased(e2, am, tl, apos, p + 1).contains_key(k)
                            implies entries.view().contains_key(k) by {
                            if am.contains_key(k) && k != ante@ {
                                assert(apos[k] != p);
                            }
                        }
                    }
                }
            },
        }
        p = p + 1;
    }
    proof {
        aliases.index.lemma_wf_facts();
        assert(entries.view() =~= dictionary_entries(*input)) by {
            assert(partially_aliased(e2, am, tl, apos, n as int) =~= with_aliases(e2, am, tl));
        }
        entries.index.lemma_wf_facts();
    }
    // the entries in key order
    let ghost d = dictionary_entries(*input);
    let sorted = entries.index.order();
    let mut out: Vec<ArtistDictionaryEntry> = Vec::new();
    let mut j: usize = 0;
    while j < sorted.len()
        invariant
            entries.wf(),
            entries.view() == d,
            sorted@.len() == entries.index.count(),
            forall|i: int| 0 <= i < sorted@.len() ==> sorted@[i] < entries.index.count(),
            forall|i: int| 0 <= i < sorted@.len() ==> #[trigger] entries.index.name_of(sorted@[i] as int) == entries.index.sorted()[i],
            entries.index.sorted().len() == sorted@.len(),
            j <= sorted.len(),
            out.len() == j,
            forall|i: int| 0 <= i < j ==> #[trigger] out@[i].match_name@ == entries.index.sorted()[i]
                && entry_is(out@[i], entries.index.sorted()[i], d[entries.index.sorted()[i]]),
        decreases sorted.len() - j,
    {
        let pos = sorted[j];
        proof {
            entries.index.lemma_name_of(pos as int);
            assert(entries.index.name_of(sorted@[j as int] as int) == entries.index.sorted()[j as int]);
        }
        let key = entries.index.name_at(pos);
        let acc = &entries.accs[pos];
        let entry = ArtistDictionaryEntry {
            match_name: string_of(key),
            display_name: string_of(&acc.display),
            canonical_name: string_of(&acc.canonical),
            post_count: acc.post_count,
            is_banned: acc.banned,
            is_deprecated: acc.deprecated,
            is_ambiguous: acc.ambiguous,
            source_mask: acc.mask,
        };
        let ghost k = entries.index.sorted()[j as int];
        assert(key@ == k);
        assert(entries.view()[k] == acc.view());
        assert(entry_is(entry, k, d[k]));
        let ghost before = out@;
        out.push(entry);
        assert(forall|i: int| 0 <= i < j ==> out@[i] == before[i]);
        j = j + 1;
    }
    proof {
        entries.index.lemma_wf_facts();
        assert forall|k: Seq<char>| #[trigger] d.contains_key(k) implies exists|i: int|
            0 <= i < out.len() && out@[i].match_name@ == k by {
            assert(entries.index.sorted().contains(k));
            let i = choose|i: int| 0 <= i < entries.index.sorted().len() && entries.index.sorted()[i] == k;
            assert(out@[i].match_name@ == k);
        }
        assert(d.dom() =~= entries.index.view().dom());
    }
    out
}

/// A stored count as SQLite's `i64`, or the overflow error.
pub fn to_i64(value: u64) -> (r: Result<i64, DatabaseError>)
    ensures
        value <= i64::MAX ==> r == Ok::<i64, DatabaseError>(value as i64),
        value > i64::MAX ==> (r matches Err(DatabaseError::RowCountOverflow)),
{
    if value <= 9223372036854775807u64 {
        Ok(value as i64)
    } else {
        Err(DatabaseError::RowCountOverflow)
    }
}

/// Checks that a dictionary snapshot held as many names as its header
/// declared; the error names both counts.
pub fn check_snapshot_count(declared: u64, read: u64) -> (r: Result<(), DatabaseError>)
    ensures
        declared == read ==> r is Ok,
        declared != read ==> (r matches Err(DatabaseError::InvalidBundledArtistDictionary(m)) && m@ == "名称数量不匹配：快照声明 "@
            + decimal_digits(declared as nat) + "，实际读取 "@ + decimal_digits(read as nat)),
{
    if declared == read {
        Ok(())
    } else {
        let mut m = chars_of("名称数量不匹配：快照声明 ");
        append_chars(&mut m, &unsigned_digits(declared));
        append_chars(&mut m, &chars_of("，实际读取 "));
        append_chars(&mut m, &unsigned_digits(read));
        Err(DatabaseError::InvalidBundledArtistDictionary(string_of(&m)))
    }
}

/// Whether no two artist records share an id.
pub open spec fn artist_ids_distinct(artists: Seq<DanbooruArtistRecord>) -> bool {
    forall|i: int, j: int| 0 <= i < j < artists.len() ==> (#[trigger] artists[i]).id != (#[trigger] artists[j]).id
}

/// Whether the records are in strictly increasing id order.
pub open spec fn ids_increasing(recs: Seq<DanbooruArtistRecord>) -> bool {
    forall|j: int, k: int| 0 <= j < k < recs.len() ==> (#[trigger] recs[j]).id < (#[trigger] recs[k]).id
}

/// The artist records the dictionary takes, in the order it takes them.
pub open spec fn live_records(artists: Seq<DanbooruArtistRecord>) -> Seq<DanbooruArtistRecord> {
    live_order(artists, artists.len() as int).map_values(|p: usize| artists[p as int])
}

proof fn lemma_first_greater_id_facts(artists: Seq<DanbooruArtistRecord>, order: Seq<usize>, id: i64, j: int)
    requires
        0 <= j <= order.len(),
    ensures
        forall|k: int| j <= k < first_greater_id(artists, order, id, j) ==> artists[order[k] as int].id <= id,
        first_greater_id(artists, order, id, j) < order.len() ==> artists[order[first_greater_id(
            artists,
            order,
            id,
            j,
        ) as int] as int].id > id,
    decreases order.len() - j,
{
    lemma_first_greater_id_bounds(artists, order, id, j);
    if j < order.len() && artists[order[j] as int].id <= id {
        lemma_first_greater_id_facts(artists, order, id, j + 1);
    }
}

/// The positions `live_order` takes are those of the records that are not
/// deleted, and, when ids are distinct, they come in increasing id order.
proof fn lemma_live_order_facts(artists: Seq<DanbooruArtistRecord>, n: int)
    requires
        0 <= n <= artists.len(),
        artists.len() <= usize::MAX,
        artist_ids_distinct(artists),
    ensures
        forall|q: usize| #[trigger] live_order(artists, n).contains(q) <==> (q < n && !artists[q as int].is_deleted),
        forall|j: int, k: int| 0 <= j < k < live_order(artists, n).len() ==> artists[live_order(
            artists,
            n,
        )[j] as int].id < artists[live_order(artists, n)[k] as int].id,
    decreases n,
{
    lemma_live_order_bounds(artists, n);
    if n > 0 {
        lemma_live_order_facts(artists, n - 1);
        lemma_live_order_bounds(artists, n - 1);
        let s = live_order(artists, n - 1);
        let a = artists[n - 1];
        if !a.is_deleted {
            lemma_first_greater_id_facts(artists, s, a.id, 0);
            lemma_first_greater_id_bounds(artists, s, a.id, 0);
            let p = first_greater_id(artists, s, a.id, 0);
            let r = live_order(artists, n);
            assert(r =~= s.take(p) + seq![(n - 1) as usize] + s.skip(p));
            assert(r[p] as int == n - 1);
            assert forall|q: usize| #[trigger] r.contains(q) <==> (q < n && !artists[q as int].is_deleted) by {
                if r.contains(q) {
                    let k = choose|k: int| 0 <= k < r.len() && r[k] == q;
                    if k < p {
                        assert(s[k] == q);
                        assert(s.contains(q));
                    } else if k > p {
                        assert(s[k - 1] == q);
                        assert(s.contains(q));
                    }
                }
                if q < n && !artists[q as int].is_deleted {
                    if q < n - 1 {
                        assert(s.contains(q));
                        let k = choose|k: int| 0 <= k < s.len() && s[k] == q;
                        if k < p {
                            assert(r[k] == q);
                        } else {
                            assert(r[k + 1] == q);
                        }
                    } else {
                        assert(r[p] == q);
                    }
                }
            }
            assert forall|j: int, k: int| 0 <= j < k < r.len() implies artists[r[j] as int].id < artists[r[k] as int].id by {
                if k < p {
                    assert(r[j] == s[j] && r[k] == s[k]);
                } else if j > p {
                    assert(r[j] == s[j - 1] && r[k] == s[k - 1]);
                } else if j < p && k == p {
                    assert(r[j] == s[j]);
                    assert(s[j] < n - 1);
                    assert(artists[s[j] as int].id <= a.id);
                    assert(artists[s[j] as int].id != artists[n - 1].id);
                } else if j < p && k > p {
                    assert(r[j] == s[j] && r[k] == s[k - 1]);
                    assert(artists[s[j] as int].id <= a.id);
                    assert(artists[s[p] as int].id > a.id);
                    if k - 1 > p {
                        assert(artists[s[p] as int].id < artists[s[k - 1] as int].id);
                    }
                } else {
                    assert(j == p);
                    assert(r[k] == s[k - 1]);
                    assert(artists[s[p] as int].id > a.id);
                    if k - 1 > p {
                        assert(artists[s[p] as int].id < artists[s[k - 1] as int].id);
                    }
                }
            }
        } else {
            assert forall|q: usize| #[trigger] live_order(artists, n).contains(q) <==> (q < n
                && !artists[q as int].is_deleted) by {
                if q == n - 1 {
                    assert(!s.contains(q));
                }
            }
        }
    } else {
        assert forall|q: usize| #[trigger] live_order(artists, n).contains(q) <==> (q < n
            && !artists[q as int].is_deleted) by {}
    }
}

/// The records the dictionary takes are the records that are not deleted,
/// in increasing id order.
proof fn lemma_live_records(artists: Seq<DanbooruArtistRecord>)
    requires
        artists.len() <= usize::MAX,
        artist_ids_distinct(artists),
    ensures
        ids_increasing(live_records(artists)),
        forall|r: DanbooruArtistRecord| #[trigger] live_records(artists).contains(r) <==> (artists.contains(r)
            && !r.is_deleted),
{
    let n = artists.len() as int;
    lemma_live_order_facts(artists, n);
    lemma_live_order_bounds(artists, n);
    let o = live_order(artists, n);
    let recs = live_records(artists);
    assert forall|j: int, k: int| 0 <= j < k < recs.len() implies (#[trigger] recs[j]).id < (#[trigger] recs[k]).id by {
        assert(recs[j] == artists[o[j] as int]);
        assert(recs[k] == artists[o[k] as int]);
    }
    assert forall|r: DanbooruArtistRecord| #[trigger] recs.contains(r) <==> (artists.contains(r) && !r.is_deleted) by {
        if recs.contains(r) {
            let k = choose|k: int| 0 <= k < recs.len() && recs[k] == r;
            assert(o.contains(o[k]));
            assert(artists[o[k] as int] == r);
        }
        if artists.contains(r) && !r.is_deleted {
            let i = choose|i: int| 0 <= i < artists.len() && artists[i] == r;
            assert(o.contains(i as usize));
            let k = choose|k: int| 0 <= k < o.len() && o[k] == i as usize;
            assert(recs[k] == r);
        }
    }
}

/// Two record sequences in increasing id order that hold the same records
/// are the same.
proof fn lemma_increasing_unique(s1: Seq<DanbooruArtistRecord>, s2: Seq<DanbooruArtistRecord>)
    requires
        ids_increasing(s1),
        ids_increasing(s2),
        forall|r: DanbooruArtistRecord| #[trigger] s1.contains(r) <==> s2.contains(r),
    ensures
        s1 == s2,
    decreases s1.len() + s2.len(),
{
    if s1.len() == 0 {
        if s2.len() > 0 {
            assert(s2.contains(s2[0]));
            assert(s1.contains(s2[0]));
        }
        assert(s1 =~= s2);
    } else if s2.len() == 0 {
        assert(s1.contains(s1[0]));
        assert(s2.contains(s1[0]));
    } else {
        let h1 = s1[0];
        let h2 = s2[0];
        assert(s1.contains(h1));
        assert(s2.contains(h1));
        assert(s2.contains(h2));
        assert(s1.contains(h2));
        let k1 = choose|k: int| 0 <= k < s1.len() && s1[k] == h2;
        let k2 = choose|k: int| 0 <= k < s2.len() && s2[k] == h1;
        if k1 > 0 && k2 > 0 {
            assert(s1[0].id < s1[k1].id);
            assert(s2[0].id < s2[k2].id);
        }
        assert(h1 == h2);
        let t1 = s1.drop_first();
        let t2 = s2.drop_first();
        assert forall|r: DanbooruArtistRecord| #[trigger] t1.contains(r) <==> t2.contains(r) by {
            if t1.contains(r) {
                let k = choose|k: int| 0 <= k < t1.len() && t1[k] == r;
                assert(s1[k + 1] == r);
                assert(s1[0].id < s1[k + 1].id);
                assert(s1.contains(r));
                assert(s2.contains(r));
                let m = choose|m: int| 0 <= m < s2.len() && s2[m] == r;
                assert(m != 0);
                assert(t2[m - 1] == r);
            }
            if t2.contains(r) {
                let k = choose|k: int| 0 <= k < t2.len() && t2[k] == r;
                assert(s2[k + 1] == r);
                assert(s2[0].id < s2[k + 1].id);
                assert(s2.contains(r));
                assert(s1.contains(r));
                let m = choose|m: int| 0 <= m < s1.len() && s1[m] == r;
                assert(m != 0);
                assert(t1[m - 1] == r);
            }
        }
        assert(ids_increasing(t1)) by {
            assert forall|j: int, k: int| 0 <= j < k < t1.len() implies (#[trigger] t1[j]).id < (#[trigger] t1[k]).id by {
                assert(t1[j] == s1[j + 1] && t1[k] == s1[k + 1]);
            }
        }
        assert(ids_increasing(t2)) by {
            assert forall|j: int, k: int| 0 <= j < k < t2.len() implies (#[trigger] t2[j]).id < (#[trigger] t2[k]).id by {
                assert(t2[j] == s2[j + 1] && t2[k] == s2[k + 1]);
            }
        }
        lemma_increasing_unique(t1, t2);
        assert(s1 =~= seq![h1] + t1);
        assert(s2 =~= seq![h2] + t2);
    }
}

/// Offering the same records in the same order gives the same entries.
proof fn lemma_artist_entries_by_records(
    m: Map<Seq<char>, AccView>,
    a1: Seq<DanbooruArtistRecord>,
    o1: Seq<usize>,
    a2: Seq<DanbooruArtistRecord>,
    o2: Seq<usize>,
    tl: Map<Seq<char>, DanbooruArtistTag>,
    n: int,
)
    requires
        forall|i: int| 0 <= i < n ==> a1[o1[i] as int] == a2[o2[i] as int],
    ensures
        artist_entries(m, a1, o1, tl, n) == artist_entries(m, a2, o2, tl, n),
    decreases n,
{
    if n > 0 {
        lemma_artist_entries_by_records(m, a1, o1, a2, o2, tl, n - 1);
        assert(a1[o1[n - 1] as int] == a2[o2[n - 1] as int]);
    }
}

/// Records that hold the same multiset as records with distinct ids have
/// distinct ids too.
proof fn lemma_ids_distinct_by_multiset(a1: Seq<DanbooruArtistRecord>, a2: Seq<DanbooruArtistRecord>)
    requires
        artist_ids_distinct(a1),
        a2.to_multiset() == a1.to_multiset(),
    ensures
        artist_ids_distinct(a2),
{
    assert(a1.no_duplicates()) by {
        assert forall|i: int, j: int| 0 <= i < a1.len() && 0 <= j < a1.len() && i != j implies a1[i] != a1[j] by {
            if i < j {
                assert(a1[i].id != a1[j].id);
            } else {
                assert(a1[j].id != a1[i].id);
            }
        }
    }
    a1.lemma_multiset_has_no_duplicates();
    a1.to_multiset_ensures();
    a2.to_multiset_ensures();
    a2.lemma_multiset_has_no_duplicates_conv();
    assert forall|i: int, j: int| 0 <= i < j < a2.len() implies (#[trigger] a2[i]).id != (#[trigger] a2[j]).id by {
        assert(a2[i] != a2[j]);
        assert(a2.contains(a2[i]));
        assert(a2.contains(a2[j]));
        assert(a1.to_multiset().count(a2[i]) > 0);
        assert(a1.to_multiset().count(a2[j]) > 0);
        assert(a1.contains(a2[i]));
        assert(a1.contains(a2[j]));
        let p = choose|p: int| 0 <= p < a1.len() && a1[p] == a2[i];
        let q = choose|q: int| 0 <= q < a1.len() && a1[q] == a2[j];
        if p < q {
            assert(a1[p].id != a1[q].id);
        } else if q < p {
            assert(a1[q].id != a1[p].id);
        }
    }
}

/// The dictionary does not depend on the order of the artist records: the
/// same records, with distinct ids, in any order give the same entries.
pub proof fn lemma_dictionary_ignores_artist_order(input: ArtistDictionaryInput, input2: ArtistDictionaryInput)
    requires
        input2.tags@ == input.tags@,
        input2.aliases@ == input.aliases@,
        input2.artists@.to_multiset() == input.artists@.to_multiset(),
        artist_ids_distinct(input.artists@),
    ensures
        dictionary_entries(input2) == dictionary_entries(input),
{
    let a1 = input.artists@;
    let a2 = input2.artists@;
    assert(a1.len() == input.artists.len());
    assert(a2.len() == input2.artists.len());
    lemma_ids_distinct_by_multiset(a1, a2);
    a1.to_multiset_ensures();
    a2.to_multiset_ensures();
    lemma_live_records(a1);
    lemma_live_records(a2);
    assert forall|r: DanbooruArtistRecord| #[trigger] live_records(a1).contains(r) <==> live_records(a2).contains(r) by {
        assert(a1.contains(r) <==> a1.to_multiset().count(r) > 0);
        assert(a2.contains(r) <==> a2.to_multiset().count(r) > 0);
    }
    lemma_increasing_unique(live_records(a1), live_records(a2));
    let o1 = live_order(a1, a1.len() as int);
    let o2 = live_order(a2, a2.len() as int);
    assert(o1.len() == live_records(a1).len());
    assert forall|i: int| 0 <= i < o1.len() implies a1[o1[i] as int] == a2[o2[i] as int] by {
        assert(live_records(a1)[i] == a1[o1[i] as int]);
        assert(live_records(a2)[i] == a2[o2[i] as int]);
    }
    let tags = input.tags@;
    let tl = tag_lookup(tags);
    lemma_artist_entries_by_records(tag_entries(tags), a1, o1, a2, o2, tl, o1.len() as int);
}

} // verus!
