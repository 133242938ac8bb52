use vstd::prelude::*;
use vstd::arithmetic::div_mod::{
    lemma_div_denominator, lemma_div_multiples_vanish, lemma_fundamental_div_mod,
    lemma_fundamental_div_mod_converse,
};
use vstd::slice::slice_subrange;

use crate::error::DimError;
use crate::shape::{
    positive_sizes, product, stride, valid_shape, multiply_list, lemma_product_subrange_le,
    lemma_product_suffix,
};

verus! {

/// Every coordinate of `idx` is below the size of its dimension in `s`.
pub open spec fn in_bounds(idx: Seq<usize>, s: Seq<usize>) -> bool {
    &&& idx.len() == s.len()
    &&& forall|i: int| 0 <= i < s.len() ==> idx[i] < s[i]
}

/// Sum of `idx[j] * stride(s, j)` over the first `k` dimensions.
pub open spec fn partial_flat(idx: Seq<usize>, s: Seq<usize>, k: int) -> int
    decreases k,
{
    if k <= 0 {
        0
    } else {
        partial_flat(idx, s, k - 1) + idx[k - 1] * stride(s, k - 1)
    }
}

/// Row-major flat position of the multi-index `idx` in shape `s`.
pub open spec fn flat_index(idx: Seq<usize>, s: Seq<usize>) -> int {
    partial_flat(idx, s, s.len() as int)
}

/// Multi-index of flat position `p` in shape `s`: coordinate `i` is
/// `(p / stride(s, i)) % s[i]`.
pub open spec fn indexes_of(p: int, s: Seq<usize>) -> Seq<usize> {
    Seq::new(s.len(), |i: int| ((p / stride(s, i)) % (s[i] as int)) as usize)
}

/// The multiply-list helper applied to the sizes right of `i` gives its stride.
fn block_size(shape: &[usize], i: usize) -> (r: usize)
    requires
        valid_shape(shape@),
        i < shape@.len(),
    ensures
        r == stride(shape@, i as int),
        r >= 1,
{
    let n = shape.len();
    let rest = slice_subrange(shape, i + 1, n);
    proof {
        let n = shape@.len() as int;
        assert forall|k: int| 0 <= k <= rest@.len() implies 1 * product(
            #[trigger] rest@.take(k),
        ) <= usize::MAX by {
            assert(rest@.take(k) =~= shape@.subrange(i + 1, i + 1 + k));
            lemma_product_subrange_le(shape@, i + 1, i + 1 + k);
        }
        lemma_product_subrange_le(shape@, i + 1, n);
    }
    multiply_list(rest, 1)
}

/// Decomposes flat position `n` into a multi-index of `shape`. The position is
/// not checked: one past the total size wraps around.
pub fn get_indexes<const N: usize>(n: &usize, shape: &[usize; N]) -> (r: [usize; N])
    requires
        valid_shape(shape@),
    ensures
        r@ == indexes_of(*n as int, shape@),
{
    let mut ind: [usize; N] = [0; N];
    let mut i: usize = N;
    while i > 0
        invariant
            i <= N,
            valid_shape(shape@),
            ind@.len() == N,
            forall|j: int| i <= j < N ==> ind@[j] == indexes_of(*n as int, shape@)[j],
        decreases i,
    {
        i = i - 1;
        let n_block = block_size(shape.as_slice(), i);
        proof {
            lemma_fundamental_div_mod(*n as int, n_block as int);
            lemma_div_multiples_vanish((*n / n_block) as int, n_block as int);
        }
        ind[i] = ((*n - (*n % n_block)) / n_block) % shape[i];
    }
    proof {
        assert(ind@ =~= indexes_of(*n as int, shape@));
    }
    ind
}

/// Composes the multi-index `indexes` into a row-major flat position of
/// `shape`, failing when a coordinate is out of range.
pub fn get_flat_pos<const R: usize>(indexes: &[usize; R], shape: &[usize; R]) -> (r: Result<
    usize,
    DimError,
>)
    requires
        valid_shape(shape@),
    ensures
        r is Ok <==> in_bounds(indexes@, shape@),
        r is Ok ==> r->Ok_0 == flat_index(indexes@, shape@),
        r is Err ==> r->Err_0 == DimError::IndexOutOfBounds,
{
    let mut ind: usize = 0;
    let mut i: usize = 0;
    proof {
        assert(shape@.subrange(0, R as int) =~= shape@);
    }
    while i < R
        invariant
            i <= R,
            valid_shape(shape@),
            forall|j: int| 0 <= j < i ==> indexes@[j] < shape@[j],
            ind == partial_flat(indexes@, shape@, i as int),
            ind + product(shape@.subrange(i as int, R as int)) <= product(shape@),
        decreases R - i,
    {
        if indexes[i] >= shape[i] {
            return Err(DimError::IndexOutOfBounds);
        }
        let block = block_size(shape.as_slice(), i);
        proof {
            lemma_product_suffix(shape@, i as int);
            let (x, s, b) = (indexes@[i as int] as int, shape@[i as int] as int, block as int);
            assert(x * b + b <= s * b) by (nonlinear_arith)
                requires
                    x + 1 <= s,
                    b >= 1,
            ;
        }
        ind = ind + indexes[i] * block;
        i = i + 1;
    }
    Ok(ind)
}

/// Strides of all but the last dimension scale by the last size.
proof fn lemma_stride_drop_last(s: Seq<usize>, i: int)
    requires
        0 <= i < s.len() - 1,
    ensures
        stride(s, i) == stride(s.drop_last(), i) * s.last(),
{
    assert(s.subrange(i + 1, s.len() as int).drop_last() =~= s.drop_last().subrange(
        i + 1,
        s.len() - 1,
    ));
}

/// Horner form of the flat position: the leading dimensions, scaled by the
/// last size, plus the last coordinate.
proof fn lemma_flat_index_drop_last(idx: Seq<usize>, s: Seq<usize>)
    requires
        s.len() > 0,
        idx.len() == s.len(),
    ensures
        flat_index(idx, s) == flat_index(idx.drop_last(), s.drop_last()) * s.last()
            + idx.last(),
{
    let n = s.len() as int;
    assert(s.subrange(n, n) =~= Seq::<usize>::empty());
    lemma_partial_flat_drop_last(idx, s, n - 1);
}

proof fn lemma_partial_flat_drop_last(idx: Seq<usize>, s: Seq<usize>, k: int)
    requires
        0 <= k < s.len(),
        idx.len() == s.len(),
    ensures
        partial_flat(idx, s, k) == partial_flat(idx.drop_last(), s.drop_last(), k) * s.last(),
    decreases k,
{
    if k > 0 {
        lemma_partial_flat_drop_last(idx, s, k - 1);
        lemma_stride_drop_last(s, k - 1);
        let (a, x, b, l) = (
            partial_flat(idx.drop_last(), s.drop_last(), k - 1),
            idx[k - 1] as int,
            stride(s.drop_last(), k - 1),
            s.last() as int,
        );
        assert(a * l + x * (b * l) == (a + x * b) * l) by (nonlinear_arith);
    }
}

/// The coordinates of `p` are those of `p / last` in the leading dimensions,
/// followed by `p % last`.
proof fn lemma_indexes_of_drop_last(p: int, s: Seq<usize>)
    requires
        0 <= p,
        s.len() > 0,
        positive_sizes(s),
    ensures
        indexes_of(p, s) == indexes_of(p / (s.last() as int), s.drop_last()).push(
            (p % (s.last() as int)) as usize,
        ),
{
    let n = s.len() as int;
    let l = s.last() as int;
    let lhs = indexes_of(p, s);
    let rhs = indexes_of(p / l, s.drop_last()).push((p % l) as usize);
    assert forall|i: int| 0 <= i < n implies lhs[i] == rhs[i] by {
        if i < n - 1 {
            lemma_stride_drop_last(s, i);
            lemma_product_subrange_le(s.drop_last(), i + 1, n - 1);
            let b = stride(s.drop_last(), i);
            lemma_div_denominator(p, l, b);
            assert(b * l == l * b) by (nonlinear_arith);
        } else {
            assert(s.subrange(n, n) =~= Seq::<usize>::empty());
        }
    }
    assert(lhs =~= rhs);
}

/// Translating a flat position in range to a multi-index and back gives the
/// position again, and the multi-index is in bounds.
pub proof fn flat_pos_of_indexes_round_trip(s: Seq<usize>, p: int)
    requires
        positive_sizes(s),
        0 <= p < product(s),
    ensures
        in_bounds(indexes_of(p, s), s),
        flat_index(indexes_of(p, s), s) == p,
    decreases s.len(),
{
    let idx = indexes_of(p, s);
    if s.len() == 0 {
        assert(idx.len() == 0);
    } else {
        let (s0, l) = (s.drop_last(), s.last() as int);
        let (q, r) = (p / l, p % l);
        lemma_fundamental_div_mod(p, l);
        let ps = product(s0);
        assert(q < ps) by (nonlinear_arith)
            requires
                p == l * q + r,
                0 <= r,
                p < ps * l,
                l > 0,
        ;
        assert(q >= 0) by (nonlinear_arith)
            requires
                p >= 0,
                l > 0,
                q == p / l,
        ;
        flat_pos_of_indexes_round_trip(s0, q);
        lemma_indexes_of_drop_last(p, s);
        assert(idx.drop_last() =~= indexes_of(q, s0));
        lemma_flat_index_drop_last(idx, s);
        assert(q * l == l * q) by (nonlinear_arith);
    }
}

/// Translating an in-bounds multi-index to a flat position and back gives
/// the multi-index again, and the position is in range.
pub proof fn indexes_of_flat_pos_round_trip(s: Seq<usize>, idx: Seq<usize>)
    requires
        positive_sizes(s),
        in_bounds(idx, s),
    ensures
        0 <= flat_index(idx, s) < product(s),
        indexes_of(flat_index(idx, s), s) == idx,
    decreases s.len(),
{
    if s.len() == 0 {
        assert(indexes_of(flat_index(idx, s), s) =~= idx);
    } else {
        let (s0, i0, l, x) = (s.drop_last(), idx.drop_last(), s.last() as int, idx.last() as int);
        indexes_of_flat_pos_round_trip(s0, i0);
        lemma_flat_index_drop_last(idx, s);
        let (f0, ps) = (flat_index(i0, s0), product(s0));
        let f = flat_index(idx, s);
        assert(0 <= f < ps * l) by (nonlinear_arith)
            requires
                f == f0 * l + x,
                0 <= f0 < ps,
                0 <= x < l,
        ;
        lemma_fundamental_div_mod_converse(f, l, f0, x);
        lemma_indexes_of_drop_last(f, s);
        assert(indexes_of(f, s) =~= idx);
    }
}

} // verus!
