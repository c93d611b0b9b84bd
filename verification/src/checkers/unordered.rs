//! Lists of strings as multisets.

use vstd::prelude::*;

use crate::text::str_eq;
use crate::text;

verus! {

/// How often a text occurs in a list.
pub fn occurrences(list: &Vec<String>, x: &str) -> (n: usize)
    ensures
        n == text::views(list@).to_multiset().count(x@),
        n <= list@.len(),
{
    broadcast use vstd::multiset::group_multiset_axioms;

    let ghost v = text::views(list@);
    let mut n: usize = 0;
    let mut i: usize = 0;
    proof {
        assert(v.take(0).len() == 0);
        v.take(0).to_multiset_ensures();
    }
    while i < list.len()
        invariant
            i <= list@.len(),
            n <= i,
            v == text::views(list@),
            n == v.take(i as int).to_multiset().count(x@),
        decreases list@.len() - i,
    {
        let ghost here = list@[i as int]@;
        assert(v.take(i as int + 1) =~= v.take(i as int).push(here));
        proof {
            vstd::seq_lib::to_multiset_build(v.take(i as int), here);
        }
        if str_eq(list[i].as_str(), x) {
            n += 1;
        }
        i += 1;
    }
    assert(v.take(i as int) =~= v);
    n
}

/// Two lists of one length are the same multiset once every text of the first
/// occurs as often in the second.
pub proof fn lemma_same_counts(e: Seq<Seq<char>>, a: Seq<Seq<char>>)
    requires
        e.len() == a.len(),
        forall|i: int|
            0 <= i < e.len() ==> e.to_multiset().count(#[trigger] e[i]) == a.to_multiset().count(
                e[i],
            ),
    ensures
        e.to_multiset() == a.to_multiset(),
{
    broadcast use vstd::seq_lib::group_to_multiset_ensures;
    broadcast use vstd::multiset::group_multiset_axioms;

    let em = e.to_multiset();
    let am = a.to_multiset();
    assert forall|x: Seq<char>| em.count(x) <= #[trigger] am.count(x) by {
        if em.count(x) > 0 {
            assert(e.contains(x));
            let i = choose|i: int| 0 <= i < e.len() && e[i] == x;
            assert(em.count(e[i]) == am.count(e[i]));
        }
    }
    let extra = am.sub(em);
    assert(em.subset_of(am));
    assert(extra.len() == 0);
    assert forall|x: Seq<char>| #[trigger] am.count(x) == em.count(x) by {
        assert(extra.count(x) <= extra.len());
    }
    assert(em =~= am);
}

/// The first text of `expected` that occurs a different number of times in
/// `actual`; `None` where the two are the same multiset.
pub fn first_surplus(expected: &Vec<String>, actual: &Vec<String>) -> (r: Option<usize>)
    requires
        expected@.len() == actual@.len(),
    ensures
        match r {
            None => text::views(expected@).to_multiset() == text::views(actual@).to_multiset(),
            Some(i) => {
                let e = text::views(expected@);
                &&& i < e.len()
                &&& e.to_multiset().count(e[i as int]) != text::views(actual@).to_multiset().count(
                    e[i as int],
                )
            },
        },
{
    let ghost e = text::views(expected@);
    let ghost a = text::views(actual@);
    let mut i: usize = 0;
    while i < expected.len()
        invariant
            i <= expected@.len(),
            e == text::views(expected@),
            a == text::views(actual@),
            forall|j: int|
                0 <= j < i ==> e.to_multiset().count(#[trigger] e[j]) == a.to_multiset().count(e[j]),
        decreases expected@.len() - i,
    {
        assert(e[i as int] == expected@[i as int]@);
        let want: usize = occurrences(expected, expected[i].as_str());
        let have: usize = occurrences(actual, expected[i].as_str());
        if want != have {
            return Some(i);
        }
        i += 1;
    }
    proof {
        lemma_same_counts(e, a);
    }
    None
}

} // verus!
