//! Ordering of character sequences by code point (the order of `String`,
//! since UTF-8 preserves code-point order) and an index from names to
//! positions kept sorted by that order.
use vstd::prelude::*;

verus! {

/// Lexicographic order by code point.
pub open spec fn seq_lt(a: Seq<char>, b: Seq<char>) -> bool
    decreases a.len(),
{
    if a.len() == 0 {
        b.len() > 0
    } else if b.len() == 0 {
        false
    } else if a[0] != b[0] {
        a[0] < b[0]
    } else {
        seq_lt(a.drop_first(), b.drop_first())
    }
}

pub proof fn lemma_seq_lt_irreflexive(a: Seq<char>)
    ensures
        !seq_lt(a, a),
    decreases a.len(),
{
    if a.len() > 0 {
        lemma_seq_lt_irreflexive(a.drop_first());
    }
}

pub proof fn lemma_seq_lt_transitive(a: Seq<char>, b: Seq<char>, c: Seq<char>)
    requires
        seq_lt(a, b),
        seq_lt(b, c),
    ensures
        seq_lt(a, c),
    decreases a.len(),
{
    if a.len() > 0 && b.len() > 0 && c.len() > 0 {
        if a[0] == b[0] && b[0] == c[0] {
            lemma_seq_lt_transitive(a.drop_first(), b.drop_first(), c.drop_first());
        }
    }
}

pub proof fn lemma_seq_lt_total(a: Seq<char>, b: Seq<char>)
    ensures
        a == b || seq_lt(a, b) || seq_lt(b, a),
    decreases a.len(),
{
    if a.len() > 0 && b.len() > 0 {
        if a[0] == b[0] {
            lemma_seq_lt_total(a.drop_first(), b.drop_first());
            if a.drop_first() == b.drop_first() {
                assert(a =~= seq![a[0]] + a.drop_first());
                assert(b =~= seq![b[0]] + b.drop_first());
            }
        }
    } else if a.len() == 0 && b.len() == 0 {
        assert(a =~= b);
    }
}

pub proof fn lemma_seq_lt_asymmetric(a: Seq<char>, b: Seq<char>)
    requires
        seq_lt(a, b),
    ensures
        !seq_lt(b, a),
{
    if seq_lt(b, a) {
        lemma_seq_lt_transitive(a, b, a);
        lemma_seq_lt_irreflexive(a);
    }
}

/// Compares by code point: -1, 0 or 1.
pub fn compare_chars(a: &Vec<char>, b: &Vec<char>) -> (r: i8)
    ensures
        r == 0 <==> a@ == b@,
        r < 0 <==> seq_lt(a@, b@),
        r > 0 <==> seq_lt(b@, a@),
{
    let mut i: usize = 0;
    assert(a@.skip(0) =~= a@);
    assert(b@.skip(0) =~= b@);
    while i < a.len() && i < b.len() && a[i] == b[i]
        invariant
            i <= a.len(),
            i <= b.len(),
            a@.take(i as int) == b@.take(i as int),
            seq_lt(a@, b@) == seq_lt(a@.skip(i as int), b@.skip(i as int)),
            seq_lt(b@, a@) == seq_lt(b@.skip(i as int), a@.skip(i as int)),
        decreases a.len() - i,
    {
        assert(a@.skip(i as int).drop_first() =~= a@.skip(i + 1));
        assert(b@.skip(i as int).drop_first() =~= b@.skip(i + 1));
        assert(a@.take(i + 1) =~= a@.take(i as int).push(a@[i as int]));
        assert(b@.take(i + 1) =~= b@.take(i as int).push(b@[i as int]));
        i = i + 1;
    }
    proof {
        lemma_seq_lt_irreflexive(a@);
    }
    if i == a.len() && i == b.len() {
        assert(a@ =~= a@.take(i as int));
        assert(b@ =~= b@.take(i as int));
        0
    } else if i == a.len() {
        assert(a@.skip(i as int).len() == 0);
        proof {
            if a@ == b@ {
            }
        }
        -1
    } else if i == b.len() {
        assert(b@.skip(i as int).len() == 0);
        1
    } else if a[i] < b[i] {
        assert(a@.skip(i as int)[0] == a@[i as int]);
        assert(b@.skip(i as int)[0] == b@[i as int]);
        -1
    } else {
        assert(a@.skip(i as int)[0] == a@[i as int]);
        assert(b@.skip(i as int)[0] == b@[i as int]);
        1
    }
}

} // verus!

verus! {

/// A set of names, each with the position at which it was first added, kept
/// in code-point order so that lookups are binary searches.
pub struct NameIndex {
    names: Vec<Vec<char>>,
    order: Vec<usize>,
    map: Ghost<Map<Seq<char>, usize>>,
}

impl NameIndex {
    /// The names and the positions at which they were added.
    pub closed spec fn view(&self) -> Map<Seq<char>, usize> {
        self.map@
    }

    /// How many names there are.
    pub closed spec fn count(&self) -> nat {
        self.names.len() as nat
    }

    /// The names in code-point order.
    pub closed spec fn sorted(&self) -> Seq<Seq<char>> {
        self.order@.map_values(|i: usize| self.names@[i as int]@)
    }

    pub closed spec fn wf(&self) -> bool {
        &&& self.order.len() == self.names.len()
        &&& forall|j: int| 0 <= j < self.order.len() ==> #[trigger] self.order@[j] < self.names.len()
        &&& forall|i: int, j: int|
            0 <= i < j < self.order.len() ==> seq_lt(
                #[trigger] self.names@[self.order@[i] as int]@,
                #[trigger] self.names@[self.order@[j] as int]@,
            )
        &&& forall|k: Seq<char>|
            #[trigger] self.map@.contains_key(k) <==> exists|j: int|
                0 <= j < self.order.len() && self.names@[self.order@[j] as int]@ == k
        &&& forall|j: int|
            0 <= j < self.order.len() ==> self.map@[self.names@[#[trigger] self.order@[j] as int]@]
                == self.order@[j]
        &&& forall|i: int|
            0 <= i < self.names.len() ==> #[trigger] self.map@.contains_key(self.names@[i]@)
                && self.map@[self.names@[i]@] == i
    }

    pub proof fn lemma_wf_facts(&self)
        requires
            self.wf(),
        ensures
            forall|k: Seq<char>| #[trigger]
                self.view().contains_key(k) ==> self.view()[k] < self.count(),
            forall|k1: Seq<char>, k2: Seq<char>|
                #[trigger] self.view().contains_key(k1) && #[trigger] self.view().contains_key(k2)
                    && k1 != k2 ==> self.view()[k1] != self.view()[k2],
            self.view().dom().finite(),
            self.view().dom().len() == self.count(),
            self.sorted().len() == self.count(),
            forall|i: int, j: int|
                0 <= i < j < self.sorted().len() ==> seq_lt(
                    #[trigger] self.sorted()[i],
                    #[trigger] self.sorted()[j],
                ),
            forall|j: int|
                0 <= j < self.sorted().len() ==> #[trigger] self.view().contains_key(
                    self.sorted()[j],
                ),
            forall|k: Seq<char>| #[trigger]
                self.view().contains_key(k) ==> self.sorted().contains(k),
    {
        assert forall|k: Seq<char>| #[trigger] self.view().contains_key(k) implies self.view()[k]
            < self.count() by {
            let j = choose|j: int|
                0 <= j < self.order.len() && self.names@[self.order@[j] as int]@ == k;
            assert(self.map@[self.names@[self.order@[j] as int]@] == self.order@[j]);
        }
        assert forall|k1: Seq<char>, k2: Seq<char>|
            #[trigger] self.view().contains_key(k1) && #[trigger] self.view().contains_key(k2)
                && k1 != k2 implies self.view()[k1] != self.view()[k2] by {
            let j1 = choose|j: int|
                0 <= j < self.order.len() && self.names@[self.order@[j] as int]@ == k1;
            let j2 = choose|j: int|
                0 <= j < self.order.len() && self.names@[self.order@[j] as int]@ == k2;
            assert(self.map@[self.names@[self.order@[j1] as int]@] == self.order@[j1]);
            assert(self.map@[self.names@[self.order@[j2] as int]@] == self.order@[j2]);
        }
        // the domain is the image of `0..count` under the names
        let names_view = Seq::new(self.names.len() as nat, |i: int| self.names@[i]@);
        assert(self.view().dom() =~= names_view.to_set()) by {
            assert forall|k: Seq<char>| self.view().dom().contains(k) implies names_view.to_set().contains(k) by {
                let i = self.view()[k] as int;
                let j = choose|j: int|
                    0 <= j < self.order.len() && self.names@[self.order@[j] as int]@ == k;
                assert(self.map@[self.names@[self.order@[j] as int]@] == self.order@[j]);
                assert(names_view[self.order@[j] as int] == k);
            }
            assert forall|k: Seq<char>| names_view.to_set().contains(k) implies self.view().dom().contains(k) by {
                let i = choose|i: int| 0 <= i < names_view.len() && names_view[i] == k;
                assert(self.map@.contains_key(self.names@[i]@));
            }
        }
        assert(names_view.no_duplicates()) by {
            assert forall|i: int, j: int|
                0 <= i < names_view.len() && 0 <= j < names_view.len() && i != j implies names_view[i] != names_view[j] by {
                assert(self.map@.contains_key(self.names@[i]@));
                assert(self.map@.contains_key(self.names@[j]@));
                assert(self.map@[self.names@[i]@] == i);
                assert(self.map@[self.names@[j]@] == j);
            }
        }
        names_view.unique_seq_to_set();
        assert forall|k: Seq<char>| #[trigger] self.view().contains_key(k) implies self.sorted().contains(k) by {
            let j = choose|j: int|
                0 <= j < self.order.len() && self.names@[self.order@[j] as int]@ == k;
            assert(self.sorted()[j] == k);
        }
    }

    /// The name added at position `i`.
    pub closed spec fn name_of(&self, i: int) -> Seq<char> {
        self.names@[i]@
    }

    pub proof fn lemma_name_of(&self, i: int)
        requires
            self.wf(),
            0 <= i < self.count(),
        ensures
            self.view().contains_key(self.name_of(i)),
            self.view()[self.name_of(i)] == i,
    {
        assert(self.map@.contains_key(self.names@[i]@));
    }

    /// The name added at position `i`.
    pub fn name_at(&self, i: usize) -> (r: &Vec<char>)
        requires
            self.wf(),
            i < self.count(),
        ensures
            r@ == self.name_of(i as int),
    {
        &self.names[i]
    }

    /// An empty index.
    pub fn new() -> (r: Self)
        ensures
            r.wf(),
            r.view() == Map::<Seq<char>, usize>::empty(),
            r.count() == 0,
    {
        NameIndex { names: Vec::new(), order: Vec::new(), map: Ghost(Map::empty()) }
    }

    /// The smallest position in the order whose name is not below `k`.
    fn lower_bound(&self, k: &Vec<char>) -> (r: usize)
        requires
            self.wf(),
        ensures
            r <= self.order.len(),
            forall|j: int| 0 <= j < r ==> seq_lt(self.names@[self.order@[j] as int]@, k@),
            forall|j: int| r <= j < self.order.len() ==> !seq_lt(self.names@[self.order@[j] as int]@, k@),
    {
        let mut lo: usize = 0;
        let mut hi: usize = self.order.len();
        while lo < hi
            invariant
                self.wf(),
                lo <= hi <= self.order.len(),
                forall|j: int| 0 <= j < lo ==> seq_lt(self.names@[self.order@[j] as int]@, k@),
                forall|j: int| hi <= j < self.order.len() ==> !seq_lt(self.names@[self.order@[j] as int]@, k@),
            decreases hi - lo,
        {
            let mid = lo + (hi - lo) / 2;
            let c = compare_chars(&self.names[self.order[mid]], k);
            if c < 0 {
                proof {
                    assert forall|j: int| 0 <= j < mid + 1 implies seq_lt(self.names@[self.order@[j] as int]@, k@) by {
                        if j < mid {
                            lemma_seq_lt_transitive(self.names@[self.order@[j] as int]@, self.names@[self.order@[mid as int] as int]@, k@);
                        }
                    }
                }
                lo = mid + 1;
            } else {
                proof {
                    assert forall|j: int| mid <= j < self.order.len() implies !seq_lt(self.names@[self.order@[j] as int]@, k@) by {
                        if j > mid {
                            let a = self.names@[self.order@[mid as int] as int]@;
                            let b = self.names@[self.order@[j] as int]@;
                            assert(seq_lt(a, b));
                            if seq_lt(b, k@) {
                                lemma_seq_lt_transitive(a, b, k@);
                            }
                        }
                    }
                }
                hi = mid;
            }
        }
        lo
    }

    /// The position at which `k` was added, if it is present.
    pub fn get(&self, k: &Vec<char>) -> (r: Option<usize>)
        requires
            self.wf(),
        ensures
            r == (if self.view().contains_key(k@) { Some(self.view()[k@]) } else { None::<usize> }),
    {
        let p = self.lower_bound(k);
        if p < self.order.len() && compare_chars(&self.names[self.order[p]], k) == 0 {
            Some(self.order[p])
        } else {
            proof {
                if self.view().contains_key(k@) {
                    let j = choose|j: int|
                        0 <= j < self.order.len() && self.names@[self.order@[j] as int]@ == k@;
                    lemma_seq_lt_irreflexive(k@);
                    if j < p {
                    } else if j > p {
                        let a = self.names@[self.order@[p as int] as int]@;
                        assert(seq_lt(a, k@));
                        lemma_seq_lt_total(a, k@);
                    }
                }
            }
            None
        }
    }

    /// Adds `k` if absent; returns its position and whether it was added.
    pub fn insert(&mut self, k: &Vec<char>) -> (r: (usize, bool))
        requires
            old(self).wf(),
        ensures
            final(self).wf(),
            old(self).view().contains_key(k@) ==> r == (old(self).view()[k@], false)
                && final(self).view() == old(self).view() && final(self).count() == old(self).count(),
            !old(self).view().contains_key(k@) ==> r == (old(self).count() as usize, true)
                && final(self).view() == old(self).view().insert(k@, r.0)
                && final(self).count() == old(self).count() + 1,
    {
        let p = self.lower_bound(k);
        if p < self.order.len() && compare_chars(&self.names[self.order[p]], k) == 0 {
            return (self.order[p], false);
        }
        proof {
            if self.view().contains_key(k@) {
                let j = choose|j: int|
                    0 <= j < self.order.len() && self.names@[self.order@[j] as int]@ == k@;
                lemma_seq_lt_irreflexive(k@);
                if j > p {
                    let a = self.names@[self.order@[p as int] as int]@;
                    lemma_seq_lt_total(a, k@);
                }
            }
        }
        let ghost old_names = self.names@;
        let ghost old_order = self.order@;
        let n = self.names.len();
        let copy = crate::text::sub_chars(k, 0, k.len());
        assert(k@.subrange(0, k@.len() as int) =~= k@);
        self.names.push(copy);
        self.order.insert(p, n);
        proof {
            self.map@ = self.map@.insert(k@, n);
            assert(self.names@[n as int]@ == k@);
            assert forall|j: int| 0 <= j < self.order.len() implies #[trigger] self.order@[j] < self.names.len() by {
                if j < p {
                    assert(self.order@[j] == old_order[j]);
                } else if j > p {
                    assert(self.order@[j] == old_order[j - 1]);
                }
            }
            assert forall|i: int, j: int|
                0 <= i < j < self.order.len() implies seq_lt(
                    #[trigger] self.names@[self.order@[i] as int]@,
                    #[trigger] self.names@[self.order@[j] as int]@,
                ) by {
                let oi = if i < p { i } else if i == p { -1 } else { i - 1 };
                let oj = if j < p { j } else if j == p { -1 } else { j - 1 };
                if i != p && j != p {
                    assert(self.order@[i] == old_order[oi]);
                    assert(self.order@[j] == old_order[oj]);
                    assert(self.names@[old_order[oi] as int] == old_names[old_order[oi] as int]);
                    assert(self.names@[old_order[oj] as int] == old_names[old_order[oj] as int]);
                } else if i == p {
                    assert(self.order@[j] == old_order[oj]);
                    assert(self.names@[old_order[oj] as int] == old_names[old_order[oj] as int]);
                    let b = old_names[old_order[oj] as int]@;
                    assert(!seq_lt(b, k@));
                    lemma_seq_lt_total(b, k@);
                    if b == k@ {
                        assert(old(self).map@.contains_key(k@));
                    }
                } else {
                    assert(self.order@[i] == old_order[oi]);
                    assert(self.names@[old_order[oi] as int] == old_names[old_order[oi] as int]);
                }
            }
            assert forall|kk: Seq<char>|
                #[trigger] self.map@.contains_key(kk) <==> exists|j: int|
                    0 <= j < self.order.len() && self.names@[self.order@[j] as int]@ == kk by {
                if self.map@.contains_key(kk) {
                    if kk == k@ {
                        assert(self.names@[self.order@[p as int] as int]@ == kk);
                    } else {
                        assert(old(self).map@.contains_key(kk));
                        let j = choose|j: int|
                            0 <= j < old_order.len() && old_names[old_order[j] as int]@ == kk;
                        let nj = if j < p { j } else { j + 1 };
                        assert(self.order@[nj] == old_order[j]);
                        assert(self.names@[old_order[j] as int] == old_names[old_order[j] as int]);
                    }
                }
                if exists|j: int| 0 <= j < self.order.len() && self.names@[self.order@[j] as int]@ == kk {
                    let j = choose|j: int|
                        0 <= j < self.order.len() && self.names@[self.order@[j] as int]@ == kk;
                    if j != p {
                        let oj = if j < p { j } else { j - 1 };
                        assert(self.order@[j] == old_order[oj]);
                        assert(self.names@[old_order[oj] as int] == old_names[old_order[oj] as int]);
                        assert(old(self).map@.contains_key(kk));
                    }
                }
            }
            assert forall|j: int|
                0 <= j < self.order.len() implies self.map@[self.names@[#[trigger] self.order@[j] as int]@]
                    == self.order@[j] by {
                if j != p {
                    let oj = if j < p { j } else { j - 1 };
                    assert(self.order@[j] == old_order[oj]);
                    assert(self.names@[old_order[oj] as int] == old_names[old_order[oj] as int]);
                    let kk = old_names[old_order[oj] as int]@;
                    assert(old(self).map@[kk] == old_order[oj]);
                    if kk == k@ {
                        assert(old(self).map@.contains_key(k@));
                    }
                }
            }
            assert forall|i: int|
                0 <= i < self.names.len() implies #[trigger] self.map@.contains_key(self.names@[i]@)
                    && self.map@[self.names@[i]@] == i by {
                if i < n {
                    assert(self.names@[i] == old_names[i]);
                    if old_names[i]@ == k@ {
                        assert(old(self).map@.contains_key(k@));
                    }
                }
            }
        }
        (n, true)
    }

    /// The positions in code-point order of their names.
    pub fn order(&self) -> (r: &Vec<usize>)
        requires
            self.wf(),
        ensures
            r@.len() == self.count(),
            self.sorted().len() == r@.len(),
            forall|j: int| 0 <= j < r@.len() ==> r@[j] < self.count(),
            forall|j: int| 0 <= j < r@.len() ==> #[trigger] self.name_of(r@[j] as int) == self.sorted()[j],
    {
        &self.order
    }
}

} // verus!
