//! The order in which rows are listed: by a key of four numbers, rows with
//! equal keys staying in the order in which they were stored.

use vstd::prelude::*;

verus! {

/// The key of a row. Keys are compared field by field, `first` first.
#[derive(Debug, Clone, Copy, PartialEq, Eq, Structural)]
pub struct SortKey {
    pub first: i64,
    pub second: i64,
    pub third: i64,
    pub fourth: i64,
}

impl SortKey {
    /// Whether this key comes before the other.
    pub open spec fn before(self, other: SortKey) -> bool {
        ||| self.first < other.first
        ||| (self.first == other.first && self.second < other.second)
        ||| (self.first == other.first && self.second == other.second && self.third < other.third)
        ||| (self.first == other.first && self.second == other.second && self.third == other.third
            && self.fourth < other.fourth)
    }

    /// Whether this key comes before the other.
    pub fn comes_before(&self, other: &SortKey) -> (r: bool)
        ensures
            r == self.before(*other),
    {
        if self.first != other.first {
            self.first < other.first
        } else if self.second != other.second {
            self.second < other.second
        } else if self.third != other.third {
            self.third < other.third
        } else {
            self.fourth < other.fourth
        }
    }
}

/// Whether the row at position `a` is listed before the row at position
/// `b`: its key comes first or, the keys being equal, it was stored first.
pub open spec fn precedes(keys: Seq<SortKey>, a: int, b: int) -> bool {
    keys[a].before(keys[b]) || (keys[a] == keys[b] && a < b)
}

/// `order` lists every position of `keys` once, each before all those that
/// it precedes.
pub open spec fn is_stable_order(keys: Seq<SortKey>, order: Seq<int>) -> bool {
    &&& order.len() == keys.len()
    &&& forall|i: int| 0 <= i < order.len() ==> 0 <= #[trigger] order[i] < keys.len()
    &&& forall|i: int, j: int|
        0 <= i < j < order.len() ==> precedes(keys, #[trigger] order[i], #[trigger] order[j])
    &&& forall|k: int| 0 <= k < keys.len() ==> #[trigger] order.contains(k)
}

/// The first place at or after `from` in `order` whose row has a key after
/// that of row `k`; the length of `order` where there is none.
pub open spec fn place_for(keys: Seq<SortKey>, order: Seq<int>, k: int, from: int) -> int
    decreases order.len() - from,
{
    if from < 0 || from >= order.len() {
        order.len() as int
    } else if keys[k].before(keys[order[from]]) {
        from
    } else {
        place_for(keys, order, k, from + 1)
    }
}

/// The positions of `keys` in the order in which their rows are listed:
/// built by putting each position in turn behind every position listed so
/// far whose key does not come after its own.
pub open spec fn sorted_positions(keys: Seq<SortKey>) -> Seq<int>
    decreases keys.len(),
{
    if keys.len() == 0 {
        Seq::empty()
    } else {
        let earlier = sorted_positions(keys.drop_last());
        let k = keys.len() - 1;
        earlier.insert(place_for(keys, earlier, k, 0), k)
    }
}

/// What [`place_for`] finds lies between `from` and the end of `order`;
/// every row from `from` up to it has a key that is not after that of row
/// `k`, and the row at it, if there is one, has a key after it.
pub proof fn lemma_place_for(keys: Seq<SortKey>, order: Seq<int>, k: int, from: int)
    requires
        0 <= from <= order.len(),
    ensures
        from <= place_for(keys, order, k, from) <= order.len(),
        forall|i: int|
            from <= i < place_for(keys, order, k, from) ==> !keys[k].before(
                keys[#[trigger] order[i]],
            ),
        place_for(keys, order, k, from) < order.len() ==> keys[k].before(
            keys[order[place_for(keys, order, k, from)]],
        ),
    decreases order.len() - from,
{
    if from < order.len() && !keys[k].before(keys[order[from]]) {
        lemma_place_for(keys, order, k, from + 1);
    }
}

/// [`sorted_positions`] lists every position once, in a stable order.
pub proof fn lemma_sorted_positions(keys: Seq<SortKey>)
    ensures
        is_stable_order(keys, sorted_positions(keys)),
    decreases keys.len(),
{
    if keys.len() > 0 {
        let shorter = keys.drop_last();
        let earlier = sorted_positions(shorter);
        let k = keys.len() - 1;
        let p = place_for(keys, earlier, k, 0);
        let order = sorted_positions(keys);
        lemma_sorted_positions(shorter);
        lemma_place_for(keys, earlier, k, 0);
        assert(order == earlier.insert(p, k));
        assert forall|i: int| 0 <= i < earlier.len() implies keys[#[trigger] earlier[i]]
            == shorter[earlier[i]] by {}
        assert forall|i: int, j: int| 0 <= i < j < order.len() implies precedes(
            keys,
            #[trigger] order[i],
            #[trigger] order[j],
        ) by {
            if j < p {
                assert(order[i] == earlier[i] && order[j] == earlier[j]);
                assert(precedes(shorter, earlier[i], earlier[j]));
            } else if j == p {
                assert(order[i] == earlier[i]);
                assert(!keys[k].before(keys[earlier[i]]));
            } else if i < p {
                assert(order[i] == earlier[i] && order[j] == earlier[j - 1]);
                if i < j - 1 {
                    assert(precedes(shorter, earlier[i], earlier[j - 1]));
                }
            } else if i == p {
                assert(order[j] == earlier[j - 1]);
                assert(keys[k].before(keys[earlier[p]]));
                if p < j - 1 {
                    assert(precedes(shorter, earlier[p], earlier[j - 1]));
                }
            } else {
                assert(order[i] == earlier[i - 1] && order[j] == earlier[j - 1]);
                assert(precedes(shorter, earlier[i - 1], earlier[j - 1]));
            }
        }
        assert forall|x: int| 0 <= x < keys.len() implies #[trigger] order.contains(x) by {
            if x == k {
                assert(order[p] == k);
            } else {
                assert(earlier.contains(x));
                let i = choose|i: int| 0 <= i < earlier.len() && earlier[i] == x;
                if i < p {
                    assert(order[i] == x);
                } else {
                    assert(order[i + 1] == x);
                }
            }
        }
    }
}

/// The positions of the keys in the order in which their rows are listed:
/// keys ascending, and rows with equal keys in the order in which they
/// stand in `keys`.
pub fn stable_order(keys: &Vec<SortKey>) -> (order: Vec<usize>)
    ensures
        order.len() == keys.len(),
        forall|i: int| 0 <= i < order.len() ==> #[trigger] order[i] as int == sorted_positions(keys@)[i],
        forall|i: int| 0 <= i < order.len() ==> #[trigger] order[i] < keys.len(),
        is_stable_order(keys@, sorted_positions(keys@)),
{
    let mut order: Vec<usize> = Vec::new();
    let mut k: usize = 0;
    assert(keys@.take(0) =~= Seq::<SortKey>::empty());
    while k < keys.len()
        invariant
            k <= keys.len(),
            order.len() == k,
            forall|i: int|
                0 <= i < k ==> #[trigger] order[i] as int == sorted_positions(keys@.take(k as int))[i],
            forall|i: int| 0 <= i < k ==> #[trigger] order[i] < k,
        decreases keys.len() - k,
    {
        let ghost upto: Seq<SortKey> = keys@.take(k + 1);
        let ghost earlier: Seq<int> = sorted_positions(keys@.take(k as int));
        proof {
            assert(upto.drop_last() =~= keys@.take(k as int));
            lemma_sorted_positions(keys@.take(k as int));
            lemma_place_for(upto, earlier, k as int, 0);
        }
        let mut p: usize = 0;
        while p < order.len() && !keys[k].comes_before(&keys[order[p]])
            invariant
                k < keys.len(),
                order.len() == k,
                earlier.len() == k,
                p <= order.len(),
                upto == keys@.take(k + 1),
                forall|i: int| 0 <= i < k ==> #[trigger] order[i] as int == earlier[i],
                forall|i: int| 0 <= i < k ==> #[trigger] order[i] < k,
                place_for(upto, earlier, k as int, 0) == place_for(upto, earlier, k as int, p as int),
            decreases order.len() - p,
        {
            assert(upto[order[p as int] as int] == keys@[order[p as int] as int]);
            assert(upto[k as int] == keys@[k as int]);
            p += 1;
        }
        proof {
            if p < order.len() {
                assert(upto[order[p as int] as int] == keys@[order[p as int] as int]);
                assert(upto[k as int] == keys@[k as int]);
            }
            assert(place_for(upto, earlier, k as int, 0) == p);
            assert(sorted_positions(upto) == earlier.insert(p as int, k as int));
        }
        order.insert(p, k);
        proof {
            assert forall|i: int| 0 <= i < k + 1 implies #[trigger] order[i] as int
                == sorted_positions(upto)[i] by {
                if i < p {
                } else if i == p {
                } else {
                    assert(order[i] == earlier[i - 1]);
                }
            }
        }
        k += 1;
    }
    proof {
        assert(keys@.take(keys.len() as int) =~= keys@);
        lemma_sorted_positions(keys@);
    }
    order
}

} // verus!
