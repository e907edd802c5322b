//! Facts about tables as sequences of rows: what is left when rows are
//! taken out, and in what order rows are listed.

use crate::sorting::{sorted_positions, SortKey};
use vstd::prelude::*;

verus! {

/// The rows in the order that their keys give: `keys[i]` is the key of
/// `rows[i]`.
pub open spec fn listed<A>(rows: Seq<A>, keys: Seq<SortKey>) -> Seq<A> {
    Seq::new(rows.len(), |i: int| rows[sorted_positions(keys)[i]])
}

/// Keeping the rows that pass a test, with one more row at the end.
pub proof fn lemma_filter_push<A>(s: Seq<A>, x: A, pred: spec_fn(A) -> bool)
    ensures
        s.push(x).filter(pred) == if pred(x) {
            s.filter(pred).push(x)
        } else {
            s.filter(pred)
        },
{
    reveal(Seq::filter);
    assert(s.push(x).drop_last() =~= s);
}

/// Keeping the rows that pass a test keeps all where all pass.
pub proof fn lemma_filter_all<A>(s: Seq<A>, pred: spec_fn(A) -> bool)
    requires
        forall|i: int| 0 <= i < s.len() ==> pred(#[trigger] s[i]),
    ensures
        s.filter(pred) == s,
    decreases s.len(),
{
    reveal(Seq::filter);
    if s.len() > 0 {
        lemma_filter_all(s.drop_last(), pred);
        assert(s.drop_last().push(s.last()) =~= s);
    }
}

/// Keeping the rows that pass a test takes out the one row that fails it.
pub proof fn lemma_filter_one_out<A>(s: Seq<A>, pred: spec_fn(A) -> bool, at: int)
    requires
        0 <= at < s.len(),
        !pred(s[at]),
        forall|i: int| 0 <= i < s.len() && i != at ==> pred(#[trigger] s[i]),
    ensures
        s.filter(pred) == s.remove(at),
    decreases s.len(),
{
    reveal(Seq::filter);
    if at == s.len() - 1 {
        lemma_filter_all(s.drop_last(), pred);
        assert(s.remove(at) =~= s.drop_last());
    } else {
        lemma_filter_one_out(s.drop_last(), pred, at);
        assert(s.drop_last().remove(at).push(s.last()) =~= s.remove(at));
    }
}

/// Every row that is kept passes the test and stood in the table, and rows
/// that are kept stand in the order in which they stood.
pub proof fn lemma_filter_keeps_order<A>(s: Seq<A>, pred: spec_fn(A) -> bool)
    ensures
        s.filter(pred).len() <= s.len(),
        forall|a: int|
            0 <= a < s.filter(pred).len() ==> pred(#[trigger] s.filter(pred)[a]) && exists|a0: int|
                0 <= a0 < s.len() && s[a0] == s.filter(pred)[a],
        forall|a: int, b: int|
            0 <= a < b < s.filter(pred).len() ==> exists|a0: int, b0: int|
                0 <= a0 < b0 < s.len() && s[a0] == #[trigger] s.filter(pred)[a] && s[b0]
                    == #[trigger] s.filter(pred)[b],
    decreases s.len(),
{
    reveal(Seq::filter);
    if s.len() > 0 {
        let shorter = s.drop_last();
        let g = shorter.filter(pred);
        let f = s.filter(pred);
        lemma_filter_keeps_order(shorter, pred);
        assert forall|a: int| 0 <= a < f.len() implies pred(#[trigger] f[a]) && exists|a0: int|
            0 <= a0 < s.len() && s[a0] == f[a] by {
            if a < g.len() {
                assert(f[a] == g[a]);
                let a0 = choose|a0: int| 0 <= a0 < shorter.len() && shorter[a0] == g[a];
                assert(s[a0] == f[a]);
            } else {
                assert(s[s.len() - 1] == f[a]);
            }
        }
        assert forall|a: int, b: int| 0 <= a < b < f.len() implies exists|a0: int, b0: int|
            0 <= a0 < b0 < s.len() && s[a0] == #[trigger] f[a] && s[b0] == #[trigger] f[b] by {
            if b < g.len() {
                assert(f[a] == g[a] && f[b] == g[b]);
                let (a0, b0) = choose|a0: int, b0: int|
                    0 <= a0 < b0 < shorter.len() && shorter[a0] == g[a] && shorter[b0] == g[b];
                assert(0 <= a0 < b0 < s.len() && s[a0] == f[a] && s[b0] == f[b]);
            } else {
                assert(f[a] == g[a]);
                let a0 = choose|a0: int| 0 <= a0 < shorter.len() && shorter[a0] == g[a];
                let b0 = s.len() - 1;
                assert(0 <= a0 < b0 < s.len() && s[a0] == f[a] && s[b0] == f[b]);
            }
        }
    }
}

/// No row that passes the test is lost.
pub proof fn lemma_filter_keeps_passing<A>(s: Seq<A>, pred: spec_fn(A) -> bool, at: int)
    requires
        0 <= at < s.len(),
        pred(s[at]),
    ensures
        exists|a: int| 0 <= a < s.filter(pred).len() && s.filter(pred)[a] == s[at],
    decreases s.len(),
{
    reveal(Seq::filter);
    let shorter = s.drop_last();
    let g = shorter.filter(pred);
    let f = s.filter(pred);
    if at == s.len() - 1 {
        assert(f[g.len() as int] == s[at]);
    } else {
        lemma_filter_keeps_passing(shorter, pred, at);
        let a = choose|a: int| 0 <= a < g.len() && g[a] == shorter[at];
        assert(f[a] == s[at]);
    }
}

} // verus!
