//! Lists of flags, set and tested by number.

use vstd::prelude::*;

verus! {

/// Whether one of the numbered entries is set.
pub fn any_set(marks: &Vec<bool>, ids: &Vec<usize>) -> (found: bool)
    requires
        forall|k: int| 0 <= k < ids@.len() ==> ids@[k] < marks@.len(),
    ensures
        found <==> exists|k: int| 0 <= k < ids@.len() && marks@[ids@[k] as int],
{
    let mut k: usize = 0;
    while k < ids.len()
        invariant
            k <= ids.len(),
            forall|j: int| 0 <= j < ids@.len() ==> ids@[j] < marks@.len(),
            forall|j: int| 0 <= j < k ==> !marks@[ids@[j] as int],
        decreases ids.len() - k,
    {
        if marks[ids[k]] {
            return true;
        }
        k = k + 1;
    }
    false
}

/// Sets each of the numbered entries.
pub fn set_all(marks: &mut Vec<bool>, ids: &Vec<usize>)
    requires
        forall|k: int| 0 <= k < ids@.len() ==> ids@[k] < old(marks)@.len(),
    ensures
        final(marks)@.len() == old(marks)@.len(),
        forall|t: usize|
            #![trigger final(marks)@[t as int]]
            #![trigger ids@.contains(t)]
            t < old(marks)@.len() ==> (final(marks)@[t as int] <==> old(marks)@[t as int]
                || ids@.contains(t)),
{
    let mut k: usize = 0;
    while k < ids.len()
        invariant
            k <= ids.len(),
            marks@.len() == old(marks)@.len(),
            forall|j: int| 0 <= j < ids@.len() ==> ids@[j] < marks@.len(),
            forall|t: usize|
                t < marks@.len() ==> (marks@[t as int] <==> old(marks)@[t as int] || ids@.take(
                    k as int,
                ).contains(t)),
        decreases ids.len() - k,
    {
        let ghost before = marks@;
        marks.set(ids[k], true);
        proof {
            let shorter = ids@.take(k as int);
            let longer = ids@.take(k + 1);
            assert(longer =~= shorter.push(ids@[k as int]));
            assert forall|t: usize| t < marks@.len() implies (marks@[t as int] <==> old(
                marks,
            )@[t as int] || longer.contains(t)) by {
                if shorter.contains(t) {
                    let j = choose|j: int| 0 <= j < shorter.len() && shorter[j] == t;
                    assert(longer[j] == t);
                }
                if t == ids@[k as int] {
                    assert(longer[k as int] == t);
                } else {
                    assert(marks@[t as int] == before[t as int]);
                    if longer.contains(t) {
                        let j = choose|j: int| 0 <= j < longer.len() && longer[j] == t;
                        assert(shorter[j] == t);
                    }
                }
            }
        }
        k = k + 1;
    }
    proof {
        assert(ids@.take(k as int) =~= ids@);
    }
}

/// A list of `n` entries, none of them set.
pub fn unset(n: usize) -> (marks: Vec<bool>)
    ensures
        marks@.len() == n,
        forall|t: int| 0 <= t < n ==> !marks@[t],
{
    let mut marks: Vec<bool> = Vec::new();
    let mut i: usize = 0;
    while i < n
        invariant
            i <= n,
            marks@.len() == i,
            forall|t: int| 0 <= t < i ==> !marks@[t],
        decreases n - i,
    {
        marks.push(false);
        i = i + 1;
    }
    marks
}

/// Whether each of the numbered entries is set.
pub fn all_set(marks: &Vec<bool>, ids: &Vec<usize>) -> (all: bool)
    requires
        forall|k: int| 0 <= k < ids@.len() ==> ids@[k] < marks@.len(),
    ensures
        all <==> forall|k: int| 0 <= k < ids@.len() ==> marks@[#[trigger] ids@[k] as int],
{
    let mut k: usize = 0;
    while k < ids.len()
        invariant
            k <= ids.len(),
            forall|j: int| 0 <= j < ids@.len() ==> ids@[j] < marks@.len(),
            forall|j: int| 0 <= j < k ==> marks@[#[trigger] ids@[j] as int],
        decreases ids.len() - k,
    {
        if !marks[ids[k]] {
            return false;
        }
        k = k + 1;
    }
    true
}

} // verus!
