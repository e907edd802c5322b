//! Runs of consecutive days on which something was completed.

use crate::calendar::CalendarDay;
use vstd::prelude::*;

verus! {

/// The days, as numbers, that occur in a list of days.
pub open spec fn day_numbers(days: Seq<CalendarDay>) -> Set<int> {
    Set::new(|d: int| exists|i: int| 0 <= i < days.len() && #[trigger] days[i].days == d)
}

/// The numbers that occur in a list.
pub open spec fn members(v: Seq<i32>) -> Set<int> {
    Set::new(|d: int| exists|i: int| 0 <= i < v.len() && #[trigger] v[i] == d)
}

/// Each entry of the list is below the next.
pub open spec fn ascending(v: Seq<i32>) -> bool {
    forall|i: int, j: int| 0 <= i < j < v.len() ==> v[i] < v[j]
}

/// The length of the run of consecutive days of `s` that ends with `d`: 0
/// where `d` is not in `s`.
pub open spec fn run_ending(s: Set<int>, d: int) -> nat
    decreases d - i32::MIN + 1,
{
    if d < i32::MIN || !s.contains(d) {
        0
    } else {
        1 + run_ending(s, d - 1)
    }
}

/// The streak that is alive on `today`: the run that ends today or, with
/// nothing done today yet, the run that ended yesterday.
pub open spec fn current_streak_of(s: Set<int>, today: int) -> nat {
    if s.contains(today) {
        run_ending(s, today)
    } else {
        run_ending(s, today - 1)
    }
}

/// `best` is the length of the longest run of consecutive days of `s`.
pub open spec fn is_best_streak(s: Set<int>, best: nat) -> bool {
    &&& forall|d: int| run_ending(s, d) <= best
    &&& (best == 0 || exists|d: int| run_ending(s, d) == best)
}

/// The distinct days of a list, in ascending order.
pub fn distinct_sorted(days: &Vec<CalendarDay>) -> (v: Vec<i32>)
    ensures
        ascending(v@),
        members(v@) == day_numbers(days@),
        v.len() <= days.len(),
{
    let mut v: Vec<i32> = Vec::new();
    let mut k: usize = 0;
    while k < days.len()
        invariant
            k <= days.len(),
            v.len() <= k,
            ascending(v@),
            forall|d: int|
                members(v@).contains(d) <==> exists|i: int|
                    0 <= i < k && #[trigger] days[i].days == d,
        decreases days.len() - k,
    {
        let x: i32 = days[k].days;
        let mut p: usize = 0;
        while p < v.len() && v[p] < x
            invariant
                p <= v.len(),
                forall|i: int| 0 <= i < p ==> v[i] < x,
            decreases v.len() - p,
        {
            p += 1;
        }
        let ghost before: Seq<i32> = v@;
        if p < v.len() && v[p] == x {
            assert(members(v@).contains(x as int));
        } else {
            v.insert(p, x);
            assert(v@ == before.insert(p as int, x));
            assert(ascending(v@)) by {
                assert forall|i: int, j: int| 0 <= i < j < v.len() implies v[i] < v[j] by {
                    if j < p {
                        assert(v[i] == before[i] && v[j] == before[j]);
                    } else if j == p {
                        assert(v[i] == before[i]);
                    } else if i < p {
                        assert(v[i] == before[i] && v[j] == before[j - 1]);
                        assert(before[j - 1] >= x || j - 1 < p);
                    } else if i == p {
                        assert(v[j] == before[j - 1]);
                    } else {
                        assert(v[i] == before[i - 1] && v[j] == before[j - 1]);
                    }
                }
            }
            assert forall|d: int| members(v@).contains(d) <==> (members(before).contains(d) || d
                == x) by {
                if members(before).contains(d) {
                    let i: int = choose|i: int| 0 <= i < before.len() && before[i] == d;
                    if i < p {
                        assert(v[i] == d);
                    } else {
                        assert(v[i + 1] == d);
                    }
                }
                if d == x {
                    assert(v[p as int] == d);
                }
                if members(v@).contains(d) {
                    let i: int = choose|i: int| 0 <= i < v.len() && v[i] == d;
                    if i < p {
                        assert(before[i] == d);
                    } else if i > p {
                        assert(before[i - 1] == d);
                    }
                }
            }
        }
        assert forall|d: int| members(v@).contains(d) <==> exists|i: int|
            0 <= i < k + 1 && #[trigger] days[i].days == d by {
            if d == x {
                assert(days[k as int].days == d);
            }
            if members(before).contains(d) {
                let i: int = choose|i: int| 0 <= i < k && #[trigger] days[i].days == d;
                assert(0 <= i < k + 1 && days[i].days == d);
            }
            if exists|i: int| 0 <= i < k + 1 && #[trigger] days[i].days == d {
                let i: int = choose|i: int| 0 <= i < k + 1 && #[trigger] days[i].days == d;
                if i < k {
                    assert(members(before).contains(d));
                }
            }
        }
        k += 1;
    }
    assert(members(v@) =~= day_numbers(days@));
    v
}

/// In an ascending list, the run that ends with an entry is one longer than
/// the run that ends with the entry before it where the two are neighbours
/// in the calendar, and has length 1 where they are not.
pub proof fn lemma_run_step(v: Seq<i32>, i: int)
    requires
        ascending(v),
        0 <= i < v.len(),
    ensures
        run_ending(members(v), v[i] as int) == if i > 0 && v[i - 1] == v[i] - 1 {
            run_ending(members(v), v[i - 1] as int) + 1
        } else {
            1
        },
{
    let s: Set<int> = members(v);
    assert(s.contains(v[i] as int));
    if i > 0 && v[i - 1] == v[i] - 1 {
    } else {
        if s.contains(v[i] - 1) {
            let j: int = choose|j: int| 0 <= j < v.len() && v[j] == v[i] - 1;
            if j > i {
                assert(v[i] < v[j]);
            }
            if j < i - 1 {
                assert(v[j] < v[i - 1]);
            }
            assert(false);
        }
        assert(run_ending(s, v[i] - 1) == 0);
    }
}

/// For each entry of an ascending list, the length of the run of
/// consecutive days that ends with it.
pub fn run_lengths(v: &Vec<i32>) -> (runs: Vec<u32>)
    requires
        ascending(v@),
        v.len() <= u32::MAX,
    ensures
        runs.len() == v.len(),
        forall|i: int|
            0 <= i < v.len() ==> #[trigger] runs[i] as nat == run_ending(members(v@), v[i] as int),
{
    let mut runs: Vec<u32> = Vec::new();
    let mut i: usize = 0;
    while i < v.len()
        invariant
            ascending(v@),
            v.len() <= u32::MAX,
            i <= v.len(),
            runs.len() == i,
            forall|j: int|
                0 <= j < i ==> #[trigger] runs[j] as nat == run_ending(members(v@), v[j] as int),
            forall|j: int| 0 <= j < i ==> #[trigger] runs[j] <= j + 1,
        decreases v.len() - i,
    {
        proof {
            lemma_run_step(v@, i as int);
        }
        let run: u32 = if i > 0 && v[i - 1] < i32::MAX && v[i - 1] + 1 == v[i] {
            runs[i - 1] + 1
        } else {
            1
        };
        runs.push(run);
        i += 1;
    }
    runs
}

/// The length of the longest run of consecutive days among the days of an
/// ascending list; 0 for an empty list.
pub fn best_streak(v: &Vec<i32>) -> (best: u32)
    requires
        ascending(v@),
        v.len() <= u32::MAX,
    ensures
        is_best_streak(members(v@), best as nat),
{
    let runs: Vec<u32> = run_lengths(v);
    let ghost s: Set<int> = members(v@);
    let mut best: u32 = 0;
    let mut i: usize = 0;
    while i < runs.len()
        invariant
            i <= runs.len(),
            runs.len() == v.len(),
            s == members(v@),
            forall|j: int| 0 <= j < v.len() ==> #[trigger] runs[j] as nat == run_ending(s, v[j] as int),
            forall|j: int| 0 <= j < i ==> run_ending(s, #[trigger] v[j] as int) <= best,
            best == 0 || exists|d: int| run_ending(s, d) == best as nat,
        decreases runs.len() - i,
    {
        if runs[i] > best {
            best = runs[i];
            assert(run_ending(s, v[i as int] as int) == best as nat);
        }
        i += 1;
    }
    assert forall|d: int| run_ending(s, d) <= best by {
        if s.contains(d) {
            let j: int = choose|j: int| 0 <= j < v.len() && v[j] == d;
            assert(run_ending(s, v[j] as int) <= best);
        }
    }
    best
}

/// Where a day stands in a list: the first place that holds it.
pub fn position_of(v: &Vec<i32>, day: i32) -> (at: Option<usize>)
    ensures
        match at {
            Some(p) => p < v.len() && v[p as int] == day && forall|i: int| 0 <= i < p ==> v[i] != day,
            None => !members(v@).contains(day as int),
        },
{
    let mut p: usize = 0;
    while p < v.len()
        invariant
            p <= v.len(),
            forall|i: int| 0 <= i < p ==> v[i] != day,
        decreases v.len() - p,
    {
        if v[p] == day {
            return Some(p);
        }
        p += 1;
    }
    None
}

/// The length of the streak that is alive on `today`, among the days of an
/// ascending list: the run that ends today or, with no entry for today, the
/// run that ended yesterday.
pub fn current_streak(v: &Vec<i32>, today: CalendarDay) -> (streak: u32)
    requires
        ascending(v@),
        v.len() <= u32::MAX,
    ensures
        streak as nat == current_streak_of(members(v@), today.days as int),
{
    let runs: Vec<u32> = run_lengths(v);
    match position_of(v, today.days) {
        Some(p) => runs[p],
        None => {
            if today.days == i32::MIN {
                0
            } else {
                match position_of(v, today.days - 1) {
                    Some(p) => runs[p],
                    None => 0,
                }
            }
        },
    }
}

} // verus!
