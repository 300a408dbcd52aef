//! Tensor names: finding a name in a list, and keeping first occurrences.

use vstd::prelude::*;

verus! {

/// A name, as the sequence of its characters.
pub type Name = Seq<char>;

/// The position of the first occurrence of `name` in `names`, if it occurs.
pub open spec fn lookup(names: Seq<Name>, name: Name) -> Option<int>
    decreases names.len(),
{
    if names.len() == 0 {
        None
    } else {
        match lookup(names.drop_last(), name) {
            Some(k) => Some(k),
            None => if names.last() == name {
                Some(names.len() - 1)
            } else {
                None
            },
        }
    }
}

/// No name occurs twice.
pub open spec fn all_distinct(names: Seq<Name>) -> bool {
    forall|a: int, b: int| 0 <= a < b < names.len() ==> names[a] != names[b]
}

/// The names in order of first occurrence, each once.
pub open spec fn distinct(names: Seq<Name>) -> Seq<Name>
    decreases names.len(),
{
    if names.len() == 0 {
        Seq::empty()
    } else {
        let before = distinct(names.drop_last());
        if lookup(before, names.last()) is Some {
            before
        } else {
            before.push(names.last())
        }
    }
}

/// What [`lookup`] finds is the first occurrence, and it finds nothing only
/// where there is none.
pub proof fn lookup_finds_first(names: Seq<Name>, name: Name)
    ensures
        match lookup(names, name) {
            Some(k) => 0 <= k < names.len() && names[k] == name && forall|j: int|
                0 <= j < k ==> names[j] != name,
            None => forall|j: int| 0 <= j < names.len() ==> names[j] != name,
        },
    decreases names.len(),
{
    if names.len() > 0 {
        lookup_finds_first(names.drop_last(), name);
        assert(forall|j: int| 0 <= j < names.len() - 1 ==> names.drop_last()[j] == names[j]);
    }
}

/// The first occurrence is what [`lookup`] finds.
pub proof fn lookup_of_first(names: Seq<Name>, name: Name, k: int)
    requires
        0 <= k < names.len(),
        names[k] == name,
        forall|j: int| 0 <= j < k ==> names[j] != name,
    ensures
        lookup(names, name) == Some(k),
{
    lookup_finds_first(names, name);
}

/// A name that does not occur is not found.
pub proof fn lookup_of_absent(names: Seq<Name>, name: Name)
    requires
        forall|j: int| 0 <= j < names.len() ==> names[j] != name,
    ensures
        lookup(names, name) is None,
{
    lookup_finds_first(names, name);
}

/// Appending to a list does not change what is found in it.
pub proof fn lookup_in_prefix(names: Seq<Name>, more: Seq<Name>, name: Name)
    ensures
        lookup(names, name) is Some ==> lookup(names + more, name) == lookup(names, name),
        lookup(names, name) is None && lookup(more, name) is None ==> lookup(names + more, name)
            is None,
        lookup(names, name) is None && lookup(more, name) is Some ==> lookup(names + more, name)
            == Some(names.len() + lookup(more, name).unwrap()),
{
    lookup_finds_first(names, name);
    lookup_finds_first(more, name);
    let all = names + more;
    assert(forall|j: int| 0 <= j < names.len() ==> all[j] == names[j]);
    assert(forall|j: int| 0 <= j < more.len() ==> all[names.len() + j] == more[j]);
    match lookup(names, name) {
        Some(k) => {
            lookup_of_first(all, name, k);
        },
        None => {
            match lookup(more, name) {
                Some(k) => {
                    assert forall|j: int| 0 <= j < names.len() + k implies all[j] != name by {
                        if j >= names.len() {
                            assert(all[j] == more[j - names.len()]);
                        }
                    }
                    lookup_of_first(all, name, names.len() + k);
                },
                None => {
                    assert forall|j: int| 0 <= j < all.len() implies all[j] != name by {
                        if j >= names.len() {
                            assert(all[j] == more[j - names.len()]);
                        }
                    }
                    lookup_of_absent(all, name);
                },
            }
        },
    }
}

/// [`distinct`] keeps exactly the names that occur, each once.
pub proof fn distinct_is_distinct(names: Seq<Name>)
    ensures
        all_distinct(distinct(names)),
        distinct(names).len() <= names.len(),
        forall|name: Name| lookup(names, name) is Some <==> lookup(distinct(names), name) is Some,
    decreases names.len(),
{
    if names.len() > 0 {
        let front = names.drop_last();
        let before = distinct(front);
        distinct_is_distinct(front);
        lookup_finds_first(before, names.last());
        assert(names =~= front + seq![names.last()]);
        assert forall|name: Name| lookup(names, name) is Some <==> lookup(
            distinct(names),
            name,
        ) is Some by {
            lookup_in_prefix(front, seq![names.last()], name);
            lookup_in_prefix(before, seq![names.last()], name);
            lookup_finds_first(seq![names.last()], name);
            assert(before.push(names.last()) =~= before + seq![names.last()]);
            lookup_finds_first(before, name);
        }
    }
}

/// In a list without repetition, every name is found where it stands.
pub proof fn lookup_in_distinct(names: Seq<Name>, k: int)
    requires
        all_distinct(names),
        0 <= k < names.len(),
    ensures
        lookup(names, names[k]) == Some(k),
{
    lookup_of_first(names, names[k], k);
}

/// Finds the first occurrence of a name.
pub fn find_name(names: &Vec<String>, name: &String) -> (found: Option<usize>)
    ensures
        match found {
            Some(k) => lookup(names.deep_view(), name@) == Some(k as int),
            None => lookup(names.deep_view(), name@) is None,
        },
{
    let ghost view = names.deep_view();
    let mut i: usize = 0;
    while i < names.len()
        invariant
            i <= names.len(),
            view == names.deep_view(),
            forall|j: int| 0 <= j < i ==> view[j] != name@,
        decreases names.len() - i,
    {
        if names[i] == *name {
            proof {
                lookup_of_first(view, name@, i as int);
            }
            return Some(i);
        }
        i = i + 1;
    }
    proof {
        lookup_of_absent(view, name@);
    }
    None
}

} // verus!
