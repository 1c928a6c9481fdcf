//! Stable ordering by a numeric key, highest first.
use vstd::prelude::*;

verus! {

/// Position `a` comes before position `b`: a higher key first, and among
/// equal keys the earlier position first.
pub open spec fn comes_before(keys: Seq<u128>, a: int, b: int) -> bool {
    keys[a] > keys[b] || (keys[a] == keys[b] && a < b)
}

/// `ord` lists every position of `keys` once, highest key first, equal keys in
/// their original order (what a stable sort by descending key gives).
pub open spec fn stable_desc_order(keys: Seq<u128>, ord: Seq<usize>) -> bool {
    &&& ord.len() == keys.len()
    &&& forall|i: int| 0 <= i < ord.len() ==> (#[trigger] ord[i]) < keys.len()
    &&& forall|i: int, j: int|
        0 <= i < j < ord.len() ==> comes_before(keys, #[trigger] ord[i] as int, #[trigger] ord[j] as int)
}

/// Each position appears in a stable descending order.
pub proof fn lemma_order_covers(keys: Seq<u128>, ord: Seq<usize>, x: int)
    requires
        stable_desc_order(keys, ord),
        0 <= x < keys.len(),
        keys.len() <= usize::MAX,
    ensures
        exists|i: int| 0 <= i < ord.len() && ord[i] == x,
{
    // The entries of `ord` are distinct and lie below `keys.len()`, and there
    // are `keys.len()` of them, so every position occurs.
    let s = ord.to_set();
    assert forall|i: int, j: int| 0 <= i < ord.len() && 0 <= j < ord.len() && i != j implies ord[i]
        != ord[j] by {
        if i < j {
            assert(comes_before(keys, ord[i] as int, ord[j] as int));
        } else {
            assert(comes_before(keys, ord[j] as int, ord[i] as int));
        }
    }
    assert(ord.no_duplicates());
    ord.unique_seq_to_set();
    let full = Set::new(|v: usize| (v as int) < keys.len());
    assert(s.subset_of(full));
    lemma_full_len(keys.len());
    if !s.contains(x as usize) {
        vstd::set_lib::lemma_len_subset(s, full.remove(x as usize));
        assert(full.remove(x as usize).len() == keys.len() - 1);
        assert(false);
    }
    assert(s.contains(x as usize));
    assert(ord.contains(x as usize));
}

proof fn lemma_full_len(n: nat)
    requires
        n <= usize::MAX + 1,
    ensures
        Set::new(|v: usize| (v as int) < n).len() == n,
        Set::new(|v: usize| (v as int) < n).finite(),
    decreases n,
{
    let full = Set::new(|v: usize| (v as int) < n);
    if n == 0 {
        assert(full =~= Set::empty());
    } else {
        lemma_full_len((n - 1) as nat);
        let smaller = Set::new(|v: usize| (v as int) < n - 1);
        assert(full =~= smaller.insert((n - 1) as usize));
    }
}

/// The stable descending order of `keys` (see [`stable_desc_order`]).
pub fn stable_order_desc(keys: &Vec<u128>) -> (ord: Vec<usize>)
    ensures
        stable_desc_order(keys@, ord@),
{
    let n = keys.len();
    let mut ord: Vec<usize> = Vec::new();
    for i in 0..n
        invariant
            n == keys@.len(),
            ord@.len() == i,
            forall|a: int| 0 <= a < ord@.len() ==> (#[trigger] ord@[a]) < i,
            forall|a: int, b: int|
                0 <= a < b < ord@.len() ==> comes_before(
                    keys@,
                    #[trigger] ord@[a] as int,
                    #[trigger] ord@[b] as int,
                ),
    {
        let len = ord.len();
        let mut p: usize = 0;
        while p < len && !(keys[i] > keys[ord[p]])
            invariant
                len == ord@.len(),
                p <= len,
                n == keys@.len(),
                i < n,
                forall|a: int| 0 <= a < ord@.len() ==> (#[trigger] ord@[a]) < i,
                forall|a: int| 0 <= a < p ==> keys@[i as int] <= keys@[#[trigger] ord@[a] as int],
            decreases len - p,
        {
            p = p + 1;
        }
        let ghost before = ord@;
        ord.insert(p, i);
        proof {
            assert(ord@ == before.take(p as int).push(i).add(before.skip(p as int)));
            assert forall|a: int| 0 <= a < ord@.len() implies (#[trigger] ord@[a]) < i + 1 by {
                if a < p {
                    assert(ord@[a] == before[a]);
                } else if a > p {
                    assert(ord@[a] == before[a - 1]);
                }
            }
            assert forall|a: int, b: int| 0 <= a < b < ord@.len() implies comes_before(
                keys@,
                #[trigger] ord@[a] as int,
                #[trigger] ord@[b] as int,
            ) by {
                if b < p {
                    assert(ord@[a] == before[a] && ord@[b] == before[b]);
                } else if b == p {
                    assert(ord@[a] == before[a]);
                    assert(ord@[b] == i);
                } else if a > p {
                    assert(ord@[a] == before[a - 1] && ord@[b] == before[b - 1]);
                } else if a == p {
                    assert(ord@[a] == i);
                    assert(ord@[b] == before[b - 1]);
                    assert(keys@[i as int] > keys@[before[p as int] as int]);
                    if b - 1 > p {
                        assert(comes_before(keys@, before[p as int] as int, before[b - 1] as int));
                    }
                } else {
                    assert(ord@[a] == before[a] && ord@[b] == before[b - 1]);
                }
            }
        }
    }
    ord
}

} // verus!
