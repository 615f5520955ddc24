//! All k-element combinations of a slice, in the order a depth-first walk
//! over increasing indices discovers them.

use vstd::prelude::*;

verus! {

/// The character of each produced vector.
pub open spec fn views_of(rs: Seq<Vec<i32>>) -> Seq<Seq<i32>> {
    rs.map_values(|v: Vec<i32>| v@)
}

/// Every way to extend `prefix` to `k` elements with elements of `arr` taken
/// at strictly increasing indices, starting no earlier than `start`; the
/// extensions that use the earliest remaining index come first.
pub open spec fn combos(arr: Seq<i32>, start: int, prefix: Seq<i32>, k: nat) -> Seq<Seq<i32>>
    decreases k - prefix.len(), arr.len() - start,
{
    if prefix.len() >= k {
        seq![prefix]
    } else if start < 0 || start >= arr.len() {
        Seq::empty()
    } else {
        combos(arr, start + 1, prefix.push(arr[start]), k) + combos(arr, start + 1, prefix, k)
    }
}

/// A copy of a vector of machine integers, element for element.
fn copy_ints(v: &Vec<i32>) -> (r: Vec<i32>)
    ensures
        r@ == v@,
{
    let mut r: Vec<i32> = Vec::new();
    let mut i: usize = 0;
    while i < v.len()
        invariant
            i <= v@.len(),
            r@ == v@.take(i as int),
        decreases v@.len() - i,
    {
        let x = v[i];
        r.push(x);
        i = i + 1;
        proof {
            assert(r@ =~= v@.take(i as int));
        }
    }
    proof {
        assert(v@.take(v@.len() as int) =~= v@);
    }
    r
}

/// Fill `combination` from position `idx` on with every choice of elements of
/// `arr` at increasing indices from `start`, appending each completed
/// combination to `result`.
#[verifier::loop_isolation(false)]
fn generate_combinations(
    arr: &[i32],
    start: usize,
    idx: usize,
    k: usize,
    combination: &mut Vec<i32>,
    result: &mut Vec<Vec<i32>>,
)
    requires
        idx <= k,
        old(combination)@.len() == k,
        start <= arr@.len(),
    ensures
        final(combination)@.len() == k,
        final(combination)@.take(idx as int) == old(combination)@.take(idx as int),
        views_of(final(result)@) == views_of(old(result)@) + combos(
            arr@,
            start as int,
            old(combination)@.take(idx as int),
            k as nat,
        ),
    decreases k - idx,
{
    let ghost prefix = combination@.take(idx as int);
    let ghost result0 = result@;

    if idx == k {
        let c = copy_ints(combination);
        result.push(c);
        proof {
            assert(combination@.take(idx as int) =~= combination@);
            assert(combos(arr@, start as int, prefix, k as nat) == seq![prefix]);
            assert(views_of(result@) =~= views_of(result0) + seq![prefix]);
        }
        return ;
    }

    let mut i: usize = start;
    while i < arr.len()
        invariant
            start <= i <= arr@.len(),
            combination@.len() == k,
            combination@.take(idx as int) == prefix,
            views_of(result0) + combos(arr@, start as int, prefix, k as nat) == views_of(result@)
                + combos(arr@, i as int, prefix, k as nat),
        decreases arr@.len() - i,
    {
        let x = arr[i];
        let slot = &mut combination[idx];
        *slot = x;
        proof {
            assert(combination@.take(idx as int) =~= prefix);
            assert(combination@.take(idx as int + 1) =~= prefix.push(arr@[i as int]));
        }
        let ghost mid = result@;
        generate_combinations(arr, i + 1, idx + 1, k, combination, result);
        proof {
            assert(combination@.take(idx as int) =~= combination@.take(idx as int + 1).take(
                idx as int,
            ));
            assert(combination@.take(idx as int) =~= prefix);
            let block = combos(arr@, i as int + 1, prefix.push(arr@[i as int]), k as nat);
            let rest = combos(arr@, i as int + 1, prefix, k as nat);
            assert(combos(arr@, i as int, prefix, k as nat) == block + rest);
            assert(views_of(result@) =~= views_of(mid) + block);
            assert(views_of(result0) + combos(arr@, start as int, prefix, k as nat) =~= views_of(
                result@,
            ) + rest) by {
                assert((views_of(mid) + block) + rest =~= views_of(mid) + (block + rest));
            }
        }
        i = i + 1;
    }
    proof {
        assert(combos(arr@, i as int, prefix, k as nat) =~= Seq::<Seq<i32>>::empty());
        assert(views_of(result@) + Seq::<Seq<i32>>::empty() =~= views_of(result@));
        assert(views_of(result0) + combos(arr@, start as int, prefix, k as nat) =~= views_of(
            result@,
        ));
    }
}

/// Every combination of `k` elements of `arr`, each drawn at strictly
/// increasing indices, in depth-first order of the chosen indices.
pub fn combinations(arr: &[i32], k: usize) -> (r: Vec<Vec<i32>>)
    ensures
        views_of(r@) == combos(arr@, 0, Seq::<i32>::empty(), k as nat),
{
    let mut result: Vec<Vec<i32>> = Vec::new();
    let mut combination: Vec<i32> = Vec::new();
    let mut t: usize = 0;
    while t < k
        invariant
            t <= k,
            combination@.len() == t,
        decreases k - t,
    {
        combination.push(0);
        t = t + 1;
    }

    proof {
        assert(combination@.take(0) =~= Seq::<i32>::empty());
    }
    generate_combinations(arr, 0, 0, k, &mut combination, &mut result);
    proof {
        assert(views_of(Seq::<Vec<i32>>::empty()) =~= Seq::<Seq<i32>>::empty());
        assert(Seq::<Seq<i32>>::empty() + combos(arr@, 0, Seq::<i32>::empty(), k as nat) =~= combos(
            arr@,
            0,
            Seq::<i32>::empty(),
            k as nat,
        ));
    }
    result
}

} // verus!
