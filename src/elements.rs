use vstd::prelude::*;

verus! {

/// `arr` without the element at `index`. The result rank `K` is one less than `N`.
pub fn remove_element<T: Copy, const N: usize, const K: usize>(arr: [T; N], index: usize) -> (r: [T; K])
    requires
        index < N,
        K + 1 == N,
    ensures
        r@ == arr@.remove(index as int),
{
    let mut result: [T; K] = [arr[0]; K];
    let mut j: usize = 0;
    let mut i: usize = 0;
    while i < N
        invariant
            K + 1 == N,
            index < N,
            i <= N,
            j == if i <= index { i } else { (i - 1) as usize },
            result@.len() == K,
            forall|k: int| 0 <= k < j ==> result@[k] == #[trigger] arr@.remove(index as int)[k],
        decreases N - i,
    {
        if i != index {
            result[j] = arr[i];
            j = j + 1;
        }
        i = i + 1;
    }
    proof {
        assert(result@ =~= arr@.remove(index as int));
    }
    result
}

/// `arr` with `element` placed at `index`, later elements shifted right. The
/// result rank `K` is one more than `N`.
pub fn insert_element<T: Copy, const N: usize, const K: usize>(
    arr: [T; N],
    index: usize,
    element: T,
) -> (r: [T; K])
    requires
        index <= N,
        K == N + 1,
    ensures
        r@ == arr@.insert(index as int, element),
{
    let mut result: [T; K] = [element; K];
    let mut inserted = false;
    let mut i: usize = 0;
    while i < K
        invariant
            K == N + 1,
            index <= N,
            i <= K,
            inserted == (i > index),
            result@.len() == K,
            forall|k: int| 0 <= k < i ==> result@[k] == #[trigger] arr@.insert(index as int, element)[k],
        decreases K - i,
    {
        if !inserted && i == index {
            result[i] = element;
            inserted = true;
        } else if !inserted {
            result[i] = arr[i];
        } else {
            result[i] = arr[i - 1];
        }
        i = i + 1;
    }
    proof {
        assert(result@ =~= arr@.insert(index as int, element));
    }
    result
}

} // verus!
