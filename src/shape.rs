use vstd::prelude::*;

verus! {

/// The product of all sizes in `s` (1 for the empty sequence).
pub open spec fn product(s: Seq<usize>) -> int
    decreases s.len(),
{
    if s.len() == 0 {
        1
    } else {
        product(s.drop_last()) * s.last()
    }
}

/// Number of flat elements spanned by one step of coordinate `i`: the product
/// of the sizes strictly to the right of `i`.
pub open spec fn stride(s: Seq<usize>, i: int) -> int {
    product(s.subrange(i + 1, s.len() as int))
}

/// Every size is positive.
pub open spec fn positive_sizes(s: Seq<usize>) -> bool {
    forall|i: int| 0 <= i < s.len() ==> s[i] > 0
}

/// A shape that can index a flat buffer: positive sizes whose total count fits
/// in a `usize`.
pub open spec fn valid_shape(s: Seq<usize>) -> bool {
    positive_sizes(s) && product(s) <= usize::MAX
}

/// The product of a concatenation is the product of the products.
pub proof fn lemma_product_concat(a: Seq<usize>, b: Seq<usize>)
    ensures
        product(a + b) == product(a) * product(b),
    decreases b.len(),
{
    if b.len() == 0 {
        assert(a + b =~= a);
    } else {
        assert((a + b).drop_last() =~= a + b.drop_last());
        lemma_product_concat(a, b.drop_last());
        let (pa, pb, x) = (product(a), product(b.drop_last()), b.last() as int);
        assert((pa * pb) * x == pa * (pb * x)) by (nonlinear_arith);
    }
}

/// A sequence of positive sizes has a positive product.
pub proof fn lemma_product_positive(s: Seq<usize>)
    requires
        positive_sizes(s),
    ensures
        product(s) >= 1,
    decreases s.len(),
{
    if s.len() > 0 {
        lemma_product_positive(s.drop_last());
        let (p, x) = (product(s.drop_last()), s.last() as int);
        assert(p * x >= 1) by (nonlinear_arith)
            requires
                p >= 1,
                x >= 1,
        ;
    }
}

/// With positive sizes, the product of any contiguous part is at most the
/// product of the whole.
pub proof fn lemma_product_subrange_le(s: Seq<usize>, i: int, j: int)
    requires
        positive_sizes(s),
        0 <= i <= j <= s.len(),
    ensures
        1 <= product(s.subrange(i, j)) <= product(s),
{
    let (a, b, c) = (s.subrange(0, i), s.subrange(i, j), s.subrange(j, s.len() as int));
    assert(s =~= (a + b) + c);
    lemma_product_concat(a + b, c);
    lemma_product_concat(a, b);
    lemma_product_positive(a);
    lemma_product_positive(b);
    lemma_product_positive(c);
    let (pa, pb, pc) = (product(a), product(b), product(c));
    assert(pb <= (pa * pb) * pc) by (nonlinear_arith)
        requires
            pa >= 1,
            pb >= 1,
            pc >= 1,
    ;
}

/// The product of a suffix peels off its first size.
pub proof fn lemma_product_suffix(s: Seq<usize>, i: int)
    requires
        0 <= i < s.len(),
    ensures
        product(s.subrange(i, s.len() as int)) == s[i] * stride(s, i),
{
    let rest = s.subrange(i + 1, s.len() as int);
    assert(s.subrange(i, s.len() as int) =~= seq![s[i]] + rest);
    lemma_product_concat(seq![s[i]], rest);
    assert(seq![s[i]].drop_last() =~= Seq::<usize>::empty());
    assert(product(Seq::<usize>::empty()) == 1);
    assert(product(seq![s[i]]) == s[i]);
}

/// Multiplies `init` by every element of `list`, left to right.
pub fn multiply_list(list: &[usize], init: usize) -> (r: usize)
    requires
        forall|k: int| 0 <= k <= list@.len() ==> init * product(#[trigger] list@.take(k)) <= usize::MAX,
    ensures
        r == init * product(list@),
{
    let mut result: usize = init;
    let mut i: usize = 0;
    while i < list.len()
        invariant
            i <= list@.len(),
            result == init * product(list@.take(i as int)),
            forall|k: int| 0 <= k <= list@.len() ==> init * product(#[trigger] list@.take(k)) <= usize::MAX,
        decreases list@.len() - i,
    {
        proof {
            assert(list@.take(i + 1).drop_last() =~= list@.take(i as int));
            let p = product(list@.take(i as int));
            assert(init * (p * list@[i as int]) == (init * p) * list@[i as int]) by (nonlinear_arith);
        }
        result = result * list[i];
        i = i + 1;
    }
    proof {
        assert(list@.take(list@.len() as int) =~= list@);
    }
    result
}

} // verus!
