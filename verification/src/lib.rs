//! A chess rules engine with pseudo-legal move generation, reversible move
//! application, and a family of game-tree search strategies.
//!
//! The win condition is reduced to king capture: no check or checkmate
//! detection exists, and castling is generated without attack-safety
//! validation.

pub mod board;
pub mod movegen;
pub mod strategy;

use vstd::prelude::*;

verus! {

/// Some position in `r` holds the index `v`.
pub open spec fn appears(r: Seq<usize>, v: int) -> bool {
    exists|k: int| 0 <= k < r.len() && r[k] == v
}

/// Indices into `data`, reordered so the keys come out ascending; equal keys
/// keep their original order. The tournament driver ranks players with this.
pub fn argsort(data: &[i32]) -> (r: Vec<usize>)
    ensures
        r@.len() == data@.len(),
        forall|a: int, b: int|
            #![trigger r@[a], r@[b]]
            0 <= a < b < r@.len() ==> data@[r@[a] as int] <= data@[r@[b] as int],
        forall|a: int, b: int|
            #![trigger r@[a], r@[b]]
            0 <= a < b < r@.len() && data@[r@[a] as int] == data@[r@[b] as int] ==> r@[a]
                < r@[b],
        forall|k: int| 0 <= k < r@.len() ==> (#[trigger] r@[k]) < data@.len(),
        forall|v: int| 0 <= v < data@.len() ==> #[trigger] appears(r@, v),
{
    let n = data.len();
    let mut r: Vec<usize> = Vec::new();
    let mut i: usize = 0;
    while i < n
        invariant
            i <= n,
            r@.len() == i,
            forall|k: int| 0 <= k < i ==> #[trigger] r@[k] == k,
        decreases n - i,
    {
        r.push(i);
        i += 1;
    }
    proof {
        assert forall|v: int| 0 <= v < n implies #[trigger] appears(r@, v) by {
            assert(r@[v] == v);
        }
    }
    let mut s: usize = 1;
    while s < n
        invariant
            n == data@.len(),
            1 <= s,
            n == 0 || s <= n,
            r@.len() == n,
            forall|k: int| 0 <= k < n ==> (#[trigger] r@[k]) < n,
            forall|v: int| 0 <= v < n ==> #[trigger] appears(r@, v),
            forall|a: int, b: int|
                #![trigger r@[a], r@[b]]
                0 <= a < b < n && data@[r@[a] as int] == data@[r@[b] as int] ==> r@[a] < r@[b],
            forall|a: int, b: int|
                #![trigger r@[a], r@[b]]
                0 <= a < b < s ==> data@[r@[a] as int] <= data@[r@[b] as int],
        decreases n - s,
    {
        let mut j: usize = s;
        while j > 0 && data[r[j - 1]] > data[r[j]]
            invariant
                n == data@.len(),
                1 <= s < n,
                j <= s,
                r@.len() == n,
                forall|k: int| 0 <= k < n ==> (#[trigger] r@[k]) < n,
                forall|v: int| 0 <= v < n ==> #[trigger] appears(r@, v),
                forall|a: int, b: int|
                    #![trigger r@[a], r@[b]]
                    0 <= a < b < n && data@[r@[a] as int] == data@[r@[b] as int] ==> r@[a]
                        < r@[b],
                forall|a: int, b: int|
                    #![trigger r@[a], r@[b]]
                    0 <= a < b <= s && b != j ==> data@[r@[a] as int] <= data@[r@[b] as int],
                forall|b: int|
                    j < b <= s ==> data@[r@[j as int] as int] <= data@[r@[b] as int],
            decreases j,
        {
            let ghost r0 = r@;
            let hi = r[j];
            let lo = r[j - 1];
            r[j - 1] = hi;
            r[j] = lo;
            proof {
                assert(r@ =~= r0.update(j - 1, r0[j as int]).update(j as int, r0[j - 1]));
                assert forall|v: int| 0 <= v < n implies #[trigger] appears(r@, v) by {
                    assert(appears(r0, v));
                    let k0 = choose|k0: int| 0 <= k0 < r0.len() && r0[k0] == v;
                    if k0 == j - 1 {
                        assert(r@[j as int] == v);
                    } else if k0 == j {
                        assert(r@[j - 1] == v);
                    } else {
                        assert(r@[k0] == v);
                    }
                }
            }
            j -= 1;
        }
    proof {
            assert forall|a: int, b: int|
                0 <= a < b <= s implies data@[r@[a] as int] <= data@[r@[b] as int] by {
                if b == j {
                    if j > 0 {
                        assert(data@[r@[j - 1] as int] <= data@[r@[j as int] as int]);
                        if a < j - 1 {
                            assert(data@[r@[a] as int] <= data@[r@[j - 1] as int]);
                        }
                    }
                }
            }
        }
        s += 1;
    }
    r
}

} // verus!
