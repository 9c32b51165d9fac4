use vstd::prelude::*;

verus! {

/// A 32-byte account identifier.
#[derive(Clone, Copy, Debug, PartialEq, Eq, Hash)]
pub struct AccountId(pub [u8; 32]);

/// Lexicographic order on the bytes of two identifiers: `a` comes first when,
/// at the first byte where they differ, its byte is the smaller one.
pub open spec fn precedes(a: AccountId, b: AccountId) -> bool {
    exists|k: int|
        0 <= k < 32 && #[trigger] a.0[k] < b.0[k] && (forall|j: int| 0 <= j < k ==> a.0[j] == b.0[j])
}

/// Every element comes strictly before every later one.
pub open spec fn strictly_sorted(s: Seq<AccountId>) -> bool {
    forall|i: int, j: int| 0 <= i < j < s.len() ==> precedes(#[trigger] s[i], #[trigger] s[j])
}

pub proof fn lemma_precedes_irreflexive(a: AccountId, b: AccountId)
    requires
        precedes(a, b),
    ensures
        a != b,
        !precedes(b, a),
{
    let k = choose|k: int|
        0 <= k < 32 && #[trigger] a.0[k] < b.0[k] && (forall|j: int| 0 <= j < k ==> a.0[j] == b.0[j]);
    if precedes(b, a) {
        let m = choose|m: int|
            0 <= m < 32 && #[trigger] b.0[m] < a.0[m] && (forall|j: int| 0 <= j < m ==> b.0[j] == a.0[j]);
        if m < k {
            assert(a.0[m] == b.0[m]);
        } else if k < m {
            assert(b.0[k] == a.0[k]);
        }
    }
}

pub proof fn lemma_precedes_transitive(a: AccountId, b: AccountId, c: AccountId)
    requires
        precedes(a, b),
        precedes(b, c),
    ensures
        precedes(a, c),
{
    let k = choose|k: int|
        0 <= k < 32 && #[trigger] a.0[k] < b.0[k] && (forall|j: int| 0 <= j < k ==> a.0[j] == b.0[j]);
    let m = choose|m: int|
        0 <= m < 32 && #[trigger] b.0[m] < c.0[m] && (forall|j: int| 0 <= j < m ==> b.0[j] == c.0[j]);
    let w = if k < m { k } else { m };
    assert(a.0[w] < c.0[w]);
    assert(forall|j: int| 0 <= j < w ==> a.0[j] == c.0[j]);
}

proof fn lemma_precedes_total_from(a: AccountId, b: AccountId, i: int)
    requires
        0 <= i <= 32,
        forall|j: int| 0 <= j < i ==> a.0[j] == b.0[j],
        a != b,
    ensures
        precedes(a, b) || precedes(b, a),
    decreases 32 - i,
{
    if i == 32 {
        assert(a.0 =~= b.0);
    } else if a.0[i] == b.0[i] {
        lemma_precedes_total_from(a, b, i + 1);
    } else if a.0[i] < b.0[i] {
        assert(a.0[i] < b.0[i] && forall|j: int| 0 <= j < i ==> a.0[j] == b.0[j]);
    } else {
        assert(b.0[i] < a.0[i] && forall|j: int| 0 <= j < i ==> b.0[j] == a.0[j]);
    }
}

pub proof fn lemma_precedes_total(a: AccountId, b: AccountId)
    requires
        a != b,
    ensures
        precedes(a, b) || precedes(b, a),
{
    lemma_precedes_total_from(a, b, 0);
}

pub proof fn lemma_sorted_no_duplicates(s: Seq<AccountId>)
    requires
        strictly_sorted(s),
    ensures
        s.no_duplicates(),
{
    assert forall|i: int, j: int| 0 <= i < s.len() && 0 <= j < s.len() && i != j implies s[i] != s[j] by {
        if i < j {
            lemma_precedes_irreflexive(s[i], s[j]);
        } else {
            lemma_precedes_irreflexive(s[j], s[i]);
        }
    }
}

impl AccountId {
    /// Whether two identifiers are the same account.
    pub fn same(&self, other: &AccountId) -> (r: bool)
        ensures
            r == (*self == *other),
    {
        let mut i: usize = 0;
        while i < 32
            invariant
                0 <= i <= 32,
                forall|j: int| 0 <= j < i ==> self.0[j] == other.0[j],
            decreases 32 - i,
        {
            if self.0[i] != other.0[i] {
                return false;
            }
            i = i + 1;
        }
        proof {
            assert(self.0 =~= other.0);
        }
        true
    }

    /// Whether this identifier comes strictly before `other` in byte order.
    pub fn precedes(&self, other: &AccountId) -> (r: bool)
        ensures
            r == precedes(*self, *other),
    {
        let mut i: usize = 0;
        while i < 32
            invariant
                0 <= i <= 32,
                forall|j: int| 0 <= j < i ==> self.0[j] == other.0[j],
            decreases 32 - i,
        {
            if self.0[i] < other.0[i] {
                assert(self.0[i as int] < other.0[i as int]);
                return true;
            }
            if self.0[i] > other.0[i] {
                proof {
                    if precedes(*self, *other) {
                        let k = choose|k: int|
                            0 <= k < 32 && #[trigger] self.0[k] < other.0[k] && (forall|j: int|
                                0 <= j < k ==> self.0[j] == other.0[j]);
                        if k > i {
                            assert(self.0[i as int] == other.0[i as int]);
                        }
                    }
                }
                return false;
            }
            i = i + 1;
        }
        false
    }
}

/// Inserts `a` into a strictly sorted list at its place, unless it is already there.
fn insert_sorted(v: &mut Vec<AccountId>, a: AccountId)
    requires
        strictly_sorted(old(v)@),
    ensures
        strictly_sorted(final(v)@),
        forall|x: AccountId| final(v)@.contains(x) <==> (old(v)@.contains(x) || x == a),
{
    let mut i: usize = 0;
    while i < v.len()
        invariant
            0 <= i <= v.len(),
            v@ == old(v)@,
            strictly_sorted(v@),
            forall|j: int| 0 <= j < i ==> precedes(#[trigger] v@[j], a),
        ensures
            0 <= i <= v.len(),
            forall|j: int| 0 <= j < i ==> precedes(#[trigger] v@[j], a),
            i == v.len() || precedes(a, v@[i as int]),
        decreases v.len() - i,
    {
        if v[i].same(&a) {
            assert(v@[i as int] == a);
            assert(v@.contains(a));
            return;
        }
        if a.precedes(&v[i]) {
            break;
        }
        proof {
            lemma_precedes_total(a, v@[i as int]);
        }
        i = i + 1;
    }
    let ghost before = v@;
    v.insert(i, a);
    proof {
        assert(v@ =~= before.subrange(0, i as int).push(a) + before.subrange(i as int, before.len() as int));
        assert forall|p: int, q: int| 0 <= p < q < v@.len() implies precedes(#[trigger] v@[p], #[trigger] v@[q]) by {
            if q < i {
            } else if q == i {
            } else if p < i {
                lemma_precedes_transitive(v@[p], a, v@[q]);
            } else if p == i {
                if q - 1 > i {
                    lemma_precedes_transitive(a, before[i as int], before[q - 1]);
                }
            } else {
            }
        }
        assert forall|x: AccountId| v@.contains(x) <==> (before.contains(x) || x == a) by {
            if v@.contains(x) {
                let k = choose|k: int| 0 <= k < v@.len() && v@[k] == x;
                if k < i {
                    assert(before[k] == x);
                } else if k > i {
                    assert(before[k - 1] == x);
                }
            }
            if before.contains(x) {
                let k = choose|k: int| 0 <= k < before.len() && before[k] == x;
                if k < i {
                    assert(v@[k] == x);
                } else {
                    assert(v@[k + 1] == x);
                }
            }
            if x == a {
                assert(v@[i as int] == x);
            }
        }
        assert(before == old(v)@);
        assert(forall|x: AccountId| #[trigger] v@.contains(x) <==> (old(v)@.contains(x) || x == a));
    }
}

/// The distinct identifiers of `list`, in byte order.
pub fn sorted_unique(list: &Vec<AccountId>) -> (r: Vec<AccountId>)
    ensures
        strictly_sorted(r@),
        r@.no_duplicates(),
        forall|x: AccountId| r@.contains(x) <==> list@.contains(x),
{
    let mut r: Vec<AccountId> = Vec::new();
    let mut i: usize = 0;
    while i < list.len()
        invariant
            0 <= i <= list.len(),
            strictly_sorted(r@),
            forall|x: AccountId| r@.contains(x) <==> list@.subrange(0, i as int).contains(x),
        decreases list.len() - i,
    {
        let ghost prev = r@;
        insert_sorted(&mut r, list[i]);
        proof {
            let next = list@.subrange(0, i + 1);
            assert(next =~= list@.subrange(0, i as int).push(list@[i as int]));
            assert forall|x: AccountId| next.contains(x) <==> (list@.subrange(0, i as int).contains(x) || x == list@[i as int]) by {
                if next.contains(x) {
                    let k = choose|k: int| 0 <= k < next.len() && next[k] == x;
                    if k < i {
                        assert(list@.subrange(0, i as int)[k] == x);
                    }
                }
                if list@.subrange(0, i as int).contains(x) {
                    let k = choose|k: int| 0 <= k < i && list@.subrange(0, i as int)[k] == x;
                    assert(next[k] == x);
                }
                if x == list@[i as int] {
                    assert(next[i as int] == x);
                }
            }
        }
        i = i + 1;
    }
    proof {
        assert(list@.subrange(0, list.len() as int) =~= list@);
        lemma_sorted_no_duplicates(r@);
    }
    r
}

} // verus!
