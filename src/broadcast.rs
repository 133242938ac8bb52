use vstd::prelude::*;
use vstd::slice::slice_to_vec;

use crate::error::DimError;
use crate::index::{flat_index, get_flat_pos, in_bounds};
use crate::shape::{positive_sizes, valid_shape};

verus! {

/// `s` left-padded with size-1 dimensions up to rank `m` (for `m >= s.len()`).
pub open spec fn padded_shape(s: Seq<usize>, m: nat) -> Seq<usize> {
    Seq::new((m - s.len()) as nat, |_i: int| 1usize) + s
}

/// The trailing `small.len()` coordinates of `idx`, each clamped to the last
/// valid coordinate of its dimension in `small`.
pub open spec fn rev_cast_index(small: Seq<usize>, idx: Seq<usize>) -> Seq<usize> {
    Seq::new(
        small.len(),
        |j: int|
            {
                let c = idx[idx.len() - small.len() + j];
                if c >= small[j] {
                    (small[j] - 1) as usize
                } else {
                    c
                }
            },
    )
}

/// Size of the `i`-th dimension of `s` counted from the right, or 1 past its rank.
pub open spec fn trailing_size(s: Seq<usize>, i: int) -> usize {
    if 0 <= i < s.len() {
        s[s.len() - 1 - i]
    } else {
        1
    }
}

/// The larger of two sizes.
pub open spec fn spec_max(x: usize, y: usize) -> usize {
    if x >= y {
        x
    } else {
        y
    }
}

/// The two sizes can be broadcast together: one of them is 1, or they agree.
pub open spec fn sizes_compatible(x: usize, y: usize) -> bool {
    x == 1 || y == 1 || x == y
}

/// Rank of the broadcast of shapes of ranks `n` and `m`.
pub open spec fn broadcast_rank(n: nat, m: nat) -> nat {
    if n >= m {
        n
    } else {
        m
    }
}

/// Every pair of trailing-aligned sizes is compatible.
pub open spec fn broadcastable(a: Seq<usize>, b: Seq<usize>) -> bool {
    forall|i: int|
        0 <= i < broadcast_rank(a.len(), b.len()) ==> sizes_compatible(
            #[trigger] trailing_size(a, i),
            trailing_size(b, i),
        )
}

/// The broadcast shape: trailing-aligned, each dimension the larger size.
pub open spec fn broadcast_of(a: Seq<usize>, b: Seq<usize>) -> Seq<usize> {
    let l = broadcast_rank(a.len(), b.len());
    Seq::new(
        l,
        |k: int| spec_max(trailing_size(a, l - 1 - k), trailing_size(b, l - 1 - k)),
    )
}

/// Pads `shape` on the left with size-1 dimensions up to rank `M`; fails when
/// `M` is below the rank of `shape`.
pub fn path_shape<const N: usize, const M: usize>(shape: &[usize; N]) -> (r: Result<
    [usize; M],
    DimError,
>)
    ensures
        r is Err <==> N > M,
        r is Ok ==> r->Ok_0@ == padded_shape(shape@, M as nat),
        r is Err ==> (match r->Err_0 {
            DimError::RankMismatch { shape: s, rank, target } => s@ == shape@ && rank == N
                && target == M,
            _ => false,
        }),
{
    if N > M {
        return Err(DimError::RankMismatch { shape: slice_to_vec(shape.as_slice()), rank: N, target: M });
    }
    let mut out: [usize; M] = [1; M];
    let mut i: usize = 0;
    while i < N
        invariant
            N <= M,
            i <= N,
            out@.len() == M,
            forall|j: int|
                0 <= j < M ==> out@[j] == if j >= M - i {
                    shape@[j - (M - N)]
                } else {
                    1usize
                },
        decreases N - i,
    {
        out[M - i - 1] = shape[N - i - 1];
        i = i + 1;
    }
    proof {
        assert(out@ =~= padded_shape(shape@, M as nat));
    }
    Ok(out)
}

/// Finds the flat position in data of shape `small_shape` that supplies the
/// element at `indexes` of an array it was broadcast to: size-1 dimensions map
/// every coordinate to 0 and the leading padded dimensions are dropped.
pub fn rev_cast_pos<const N: usize, const M: usize>(
    small_shape: &[usize; N],
    indexes: &[usize; M],
) -> (r: Result<usize, DimError>)
    requires
        valid_shape(small_shape@),
    ensures
        r is Err <==> N > M,
        r is Ok ==> r->Ok_0 == flat_index(rev_cast_index(small_shape@, indexes@), small_shape@),
        r is Err ==> (match r->Err_0 {
            DimError::RankMismatch { shape: s, rank, target } => s@ == small_shape@ && rank == N
                && target == M,
            _ => false,
        }),
{
    let padded: [usize; M] = match path_shape(small_shape) {
        Ok(p) => p,
        Err(e) => return Err(e),
    };
    let mut indexes: [usize; M] = *indexes;
    let ghost requested = indexes@;
    let mut i: usize = 0;
    while i < M
        invariant
            N <= M,
            i <= M,
            valid_shape(small_shape@),
            padded@ == padded_shape(small_shape@, M as nat),
            indexes@.len() == M,
            forall|j: int|
                0 <= j < M ==> indexes@[j] == if j < i && padded@[j] <= requested[j] {
                    (padded@[j] - 1) as usize
                } else {
                    requested[j]
                },
        decreases M - i,
    {
        if padded[i] <= indexes[i] {
            indexes[i] = padded[i] - 1;
        }
        i = i + 1;
    }
    let mut rev_casted_ind: [usize; N] = [0; N];
    let mut i: usize = 0;
    while i < N
        invariant
            N <= M,
            i <= N,
            indexes@.len() == M,
            rev_casted_ind@.len() == N,
            forall|j: int|
                N - i <= j < N ==> rev_casted_ind@[j] == indexes@[j + (M - N)],
        decreases N - i,
    {
        rev_casted_ind[N - i - 1] = indexes[M - i - 1];
        i = i + 1;
    }
    proof {
        assert(rev_casted_ind@ =~= rev_cast_index(small_shape@, requested));
        assert(in_bounds(rev_casted_ind@, small_shape@));
    }
    match get_flat_pos(&rev_casted_ind, small_shape) {
        Ok(pos) => Ok(pos),
        Err(e) => Err(e),
    }
}

/// `arr[index]`, or `or` when `index` is past the end.
fn index_or(arr: &[usize], index: usize, or: usize) -> (r: usize)
    ensures
        r == if index < arr@.len() {
            arr@[index as int]
        } else {
            or
        },
{
    if index >= arr.len() {
        or
    } else {
        arr[index]
    }
}

/// The larger of `x` and `y`.
pub fn const_max(x: usize, y: usize) -> (r: usize)
    ensures
        r == spec_max(x, y),
{
    if x >= y {
        x
    } else {
        y
    }
}

/// The elements of `s` in reverse order.
fn reversed(s: &[usize]) -> (r: Vec<usize>)
    ensures
        r@ == s@.reverse(),
{
    let mut out: Vec<usize> = Vec::new();
    let mut i: usize = s.len();
    while i > 0
        invariant
            i <= s@.len(),
            out@.len() == s@.len() - i,
            forall|j: int| 0 <= j < out@.len() ==> out@[j] == s@[s@.len() - 1 - j],
        decreases i,
    {
        i = i - 1;
        out.push(s[i]);
    }
    proof {
        assert(out@ =~= s@.reverse());
    }
    out
}

/// The shape that `shape1` and `shape2` broadcast to under trailing alignment,
/// or an error naming both shapes when some pair of sizes is incompatible.
pub fn broadcast_shape<const N: usize, const M: usize>(
    shape1: &[usize; N],
    shape2: &[usize; M],
) -> (r: Result<Vec<usize>, DimError>)
    ensures
        r is Ok <==> broadcastable(shape1@, shape2@),
        r is Ok ==> r->Ok_0@ == broadcast_of(shape1@, shape2@),
        r is Err ==> (match r->Err_0 {
            DimError::BroadcastError { shape1: a, shape2: b } => a@ == shape1@ && b@ == shape2@,
            _ => false,
        }),
{
    let l = const_max(N, M);
    let mut out_shape: Vec<usize> = vec![0; l];
    let sh1 = reversed(shape1.as_slice());
    let sh2 = reversed(shape2.as_slice());
    let mut i: usize = 0;
    while i < l
        invariant
            l == broadcast_rank(N as nat, M as nat),
            i <= l,
            sh1@ == shape1@.reverse(),
            sh2@ == shape2@.reverse(),
            out_shape@.len() == l,
            forall|k: int| 0 <= k < i ==> sizes_compatible(
                #[trigger] trailing_size(shape1@, k),
                trailing_size(shape2@, k),
            ),
            forall|k: int|
                l - i <= k < l ==> out_shape@[k] == #[trigger] broadcast_of(shape1@, shape2@)[k],
        decreases l - i,
    {
        let size1 = index_or(sh1.as_slice(), i, 1);
        let size2 = index_or(sh2.as_slice(), i, 1);
        assert(size1 == trailing_size(shape1@, i as int));
        assert(size2 == trailing_size(shape2@, i as int));
        if size1 != 1 && size2 != 1 && size1 != size2 {
            assert(!sizes_compatible(trailing_size(shape1@, i as int), trailing_size(shape2@, i as int)));
            return Err(
                DimError::BroadcastError {
                    shape1: slice_to_vec(shape1.as_slice()),
                    shape2: slice_to_vec(shape2.as_slice()),
                },
            );
        }
        out_shape[l - i - 1] = const_max(size1, size2);
        i = i + 1;
    }
    proof {
        assert(out_shape@ =~= broadcast_of(shape1@, shape2@));
    }
    Ok(out_shape)
}

/// Padding a shape to its own rank leaves it unchanged.
pub proof fn padding_to_own_rank_is_identity(s: Seq<usize>)
    ensures
        padded_shape(s, s.len()) == s,
{
    assert(padded_shape(s, s.len()) =~= s);
}

/// Broadcasting is symmetric: the same pairs are compatible and the resulting
/// shape does not depend on the order of the operands.
pub proof fn broadcast_commutes(a: Seq<usize>, b: Seq<usize>)
    ensures
        broadcastable(a, b) == broadcastable(b, a),
        broadcast_of(a, b) == broadcast_of(b, a),
{
    assert(broadcast_of(a, b) =~= broadcast_of(b, a));
}

/// Along a size-1 dimension of the small shape, every requested coordinate
/// maps back to coordinate 0.
pub proof fn rev_cast_of_unit_dimension(small: Seq<usize>, idx: Seq<usize>, j: int)
    requires
        small.len() <= idx.len(),
        0 <= j < small.len(),
        small[j] == 1,
    ensures
        rev_cast_index(small, idx)[j] == 0,
{
}

/// For an index in bounds of the broadcast of `small` with another shape, the
/// reverse-broadcast coordinates are the requested ones, except along the
/// size-1 dimensions of `small`, where they are 0: no coordinate is clamped
/// for any other reason.
pub proof fn rev_cast_of_broadcast_index(
    small: Seq<usize>,
    other: Seq<usize>,
    idx: Seq<usize>,
    j: int,
)
    requires
        positive_sizes(small),
        broadcastable(small, other),
        in_bounds(idx, broadcast_of(small, other)),
        0 <= j < small.len(),
    ensures
        rev_cast_index(small, idx)[j] == if small[j] == 1 {
            0
        } else {
            idx[idx.len() - small.len() + j]
        },
{
    let n = small.len() as int;
    let t = n - 1 - j;
    assert(trailing_size(small, t) == small[j]);
    assert(sizes_compatible(trailing_size(small, t), trailing_size(other, t)));
}

} // verus!
