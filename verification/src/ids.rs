//! Lists of ids.

use vstd::prelude::*;

verus! {

/// Whether the list holds this id.
pub fn has_id(v: &Vec<i32>, x: i32) -> (r: bool)
    ensures
        r == v@.contains(x),
{
    let mut i: usize = 0;
    while i < v.len()
        invariant
            i <= v@.len(),
            forall|k: int| 0 <= k < i ==> #[trigger] v@[k] != x,
        decreases v@.len() - i,
    {
        if v[i] == x {
            assert(v@[i as int] == x);
            return true;
        }
        i += 1;
    }
    false
}

/// Strictly increasing.
pub open spec fn increasing(v: Seq<i32>) -> bool {
    forall|i: int, j: int| 0 <= i < j < v.len() ==> #[trigger] v[i] < #[trigger] v[j]
}

/// Adds a number at its place, unless it is there.
pub fn insert_sorted(v: &mut Vec<i32>, x: i32)
    requires
        increasing(old(v)@),
    ensures
        increasing(final(v)@),
        forall|y: i32| #[trigger] final(v)@.contains(y) <==> old(v)@.contains(y) || y == x,
{
    let ghost before = v@;
    let mut p: usize = 0;
    while p < v.len() && v[p] < x
        invariant
            p <= v@.len(),
            v@ == before,
            forall|k: int| 0 <= k < p ==> #[trigger] v@[k] < x,
        decreases v@.len() - p,
    {
        p += 1;
    }
    if p < v.len() && v[p] == x {
        assert(before[p as int] == x);
        return;
    }
    v.insert(p, x);
    proof {
        assert(v@ =~= before.insert(p as int, x));
        assert forall|i: int, j: int| 0 <= i < j < v@.len() implies #[trigger] v@[i]
            < #[trigger] v@[j] by {
            let i0 = if i < p {
                i
            } else {
                i - 1
            };
            let j0 = if j < p {
                j
            } else {
                j - 1
            };
            if i == p {
                assert(v@[j] == before[j0]);
                assert(before[p as int] > x);
                if j0 > p {
                    assert(before[p as int] < before[j0]);
                }
            } else if j == p {
                assert(v@[i] == before[i0]);
            } else {
                assert(v@[i] == before[i0] && v@[j] == before[j0]);
            }
        }
        assert forall|y: i32| #[trigger] v@.contains(y) <==> before.contains(y) || y == x by {
            if before.contains(y) {
                let k = choose|k: int| 0 <= k < before.len() && before[k] == y;
                if k < p {
                    assert(v@[k] == y);
                } else {
                    assert(v@[k + 1] == y);
                }
            }
            if y == x {
                assert(v@[p as int] == y);
            }
            if v@.contains(y) && y != x {
                let k = choose|k: int| 0 <= k < v@.len() && v@[k] == y;
                if k < p {
                    assert(before[k] == y);
                } else if k > p {
                    assert(before[k - 1] == y);
                }
            }
        }
    }
}

/// The numbers of a list that has gaps, sorted, each once.
pub fn sorted_ids(ids: &Vec<Option<i32>>) -> (r: Vec<i32>)
    ensures
        increasing(r@),
        forall|y: i32| #[trigger] r@.contains(y) <==> ids@.contains(Some(y)),
{
    let mut out: Vec<i32> = Vec::new();
    let mut i: usize = 0;
    while i < ids.len()
        invariant
            i <= ids@.len(),
            increasing(out@),
            forall|y: i32| #[trigger]
                out@.contains(y) <==> ids@.take(i as int).contains(Some(y)),
        decreases ids@.len() - i,
    {
        let ghost before = out@;
        let ghost prior = ids@.take(i as int);
        let ghost more = ids@.take(i as int + 1);
        match ids[i] {
            Some(x) => {
                insert_sorted(&mut out, x);
            },
            None => {},
        }
        proof {
            assert forall|y: i32| #[trigger] out@.contains(y) <==> more.contains(Some(y)) by {
                assert(before.contains(y) <==> prior.contains(Some(y)));
                if prior.contains(Some(y)) {
                    let k = choose|k: int| 0 <= k < prior.len() && prior[k] == Some(y);
                    assert(more[k] == Some(y));
                }
                if more.contains(Some(y)) {
                    let k = choose|k: int| 0 <= k < more.len() && more[k] == Some(y);
                    if k < i {
                        assert(prior[k] == Some(y));
                    }
                }
                if ids@[i as int] == Some(y) {
                    assert(more[i as int] == Some(y));
                }
            }
        }
        i += 1;
    }
    assert(ids@.take(i as int) =~= ids@);
    out
}

} // verus!
