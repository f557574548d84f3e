//! Arithmetic on shapes: element counts, row-major strides and the
//! contiguity test.
use vstd::prelude::*;

verus! {

/// Product of the entries of a size list; 1 for the empty list.
pub open spec fn prod(s: Seq<usize>) -> int
    decreases s.len(),
{
    if s.len() == 0 {
        1
    } else {
        s[0] * prod(s.drop_first())
    }
}

/// A size list with every 0 raised to 1.
pub open spec fn clamp1(s: Seq<usize>) -> Seq<usize> {
    s.map_values(|x: usize| if x == 0 { 1usize } else { x })
}

/// Row-major strides for the given sizes: the last dimension has stride 1,
/// each earlier one the stride of the next times the next size (a size 0
/// counting as 1).
pub open spec fn contiguous_strides(sizes: Seq<usize>) -> Seq<usize> {
    Seq::new(sizes.len(), |i: int| prod(clamp1(sizes).subrange(i + 1, sizes.len() as int)) as usize)
}

/// A layout is contiguous when it has no elements, or when each dimension
/// of size other than 1 has as stride the product of the sizes after it.
pub open spec fn is_contiguous_layout(sizes: Seq<usize>, strides: Seq<usize>) -> bool {
    prod(sizes) == 0 || forall|d: int|
        0 <= d < sizes.len() && sizes[d] != 1 ==> #[trigger] strides[d] == prod(
            sizes.subrange(d + 1, sizes.len() as int),
        )
}

/// The strides of `sizes` in row-major order fit in `usize`.
pub open spec fn strides_fit(sizes: Seq<usize>) -> bool {
    prod(clamp1(sizes)) <= usize::MAX
}

pub proof fn lemma_prod_nonneg(s: Seq<usize>)
    ensures
        prod(s) >= 0,
    decreases s.len(),
{
    if s.len() > 0 {
        lemma_prod_nonneg(s.drop_first());
        vstd::arithmetic::mul::lemma_mul_nonnegative(s[0] as int, prod(s.drop_first()));
    }
}

/// A product over entries that are all at least 1 is at least 1.
pub proof fn lemma_prod_pos(s: Seq<usize>)
    requires
        forall|i: int| 0 <= i < s.len() ==> s[i] >= 1,
    ensures
        prod(s) >= 1,
    decreases s.len(),
{
    if s.len() > 0 {
        lemma_prod_pos(s.drop_first());
        vstd::arithmetic::mul::lemma_mul_increases(prod(s.drop_first()) - 1 + 1, s[0] as int);
        assert(s[0] * prod(s.drop_first()) >= 1) by (nonlinear_arith)
            requires
                s[0] >= 1,
                prod(s.drop_first()) >= 1,
        ;
    }
}

/// Peeling the first entry of a suffix.
pub proof fn lemma_prod_suffix_step(s: Seq<usize>, d: int)
    requires
        0 <= d < s.len(),
    ensures
        prod(s.subrange(d, s.len() as int)) == s[d] * prod(s.subrange(d + 1, s.len() as int)),
{
    let t = s.subrange(d, s.len() as int);
    assert(t.drop_first() =~= s.subrange(d + 1, s.len() as int));
}

/// The product of a list splits at any point.
pub proof fn lemma_prod_split(s: Seq<usize>, d: int)
    requires
        0 <= d <= s.len(),
    ensures
        prod(s) == prod(s.subrange(0, d)) * prod(s.subrange(d, s.len() as int)),
    decreases d,
{
    if d == 0 {
        assert(s.subrange(0, 0).len() == 0);
        assert(s.subrange(0, s.len() as int) =~= s);
    } else {
        lemma_prod_split(s, d - 1);
        lemma_prod_suffix_step(s, d - 1);
        lemma_prod_prefix_step(s, d);
        let a = prod(s.subrange(0, d - 1));
        let b = prod(s.subrange(d, s.len() as int));
        let x = s[d - 1] as int;
        assert(a * (x * b) == (a * x) * b) by (nonlinear_arith);
    }
}

/// Extending a prefix by one entry.
pub proof fn lemma_prod_prefix_step(s: Seq<usize>, d: int)
    requires
        0 < d <= s.len(),
    ensures
        prod(s.subrange(0, d)) == prod(s.subrange(0, d - 1)) * s[d - 1],
    decreases d,
{
    let t = s.subrange(0, d);
    if d == 1 {
        assert(t.drop_first() =~= Seq::<usize>::empty());
        assert(s.subrange(0, 0) =~= Seq::<usize>::empty());
    } else {
        lemma_prod_prefix_step(s.drop_first(), d - 1);
        assert(t.drop_first() =~= s.drop_first().subrange(0, d - 1));
        assert(s.subrange(0, d - 1).drop_first() =~= s.drop_first().subrange(0, d - 2));
        let p = prod(s.drop_first().subrange(0, d - 2));
        let x = s[d - 1] as int;
        let h = s[0] as int;
        assert(prod(t) == h * prod(t.drop_first()));
        assert(prod(s.subrange(0, d - 1)) == h * prod(s.subrange(0, d - 1).drop_first()));
        assert(prod(t.drop_first()) == p * x);
        assert(h * (p * x) == (h * p) * x) by (nonlinear_arith);
    }
}

/// A suffix product of entries all at least 1 is at most the whole product.
pub proof fn lemma_prod_suffix_le(s: Seq<usize>, d: int)
    requires
        0 <= d <= s.len(),
        forall|i: int| 0 <= i < s.len() ==> s[i] >= 1,
    ensures
        1 <= prod(s.subrange(d, s.len() as int)) <= prod(s),
{
    lemma_prod_split(s, d);
    let p = s.subrange(0, d);
    let q = s.subrange(d, s.len() as int);
    lemma_prod_pos(p);
    lemma_prod_pos(q);
    let a = prod(p);
    let b = prod(q);
    assert(a * b >= b) by (nonlinear_arith)
        requires
            a >= 1,
            b >= 1,
    ;
}

/// A product is zero exactly when some entry is zero.
pub proof fn lemma_prod_zero(s: Seq<usize>)
    ensures
        prod(s) == 0 <==> exists|i: int| 0 <= i < s.len() && s[i] == 0,
    decreases s.len(),
{
    if s.len() > 0 {
        lemma_prod_zero(s.drop_first());
        lemma_prod_nonneg(s.drop_first());
        let t = s.drop_first();
        if prod(s) == 0 {
            if s[0] != 0 {
                assert(prod(t) == 0) by (nonlinear_arith)
                    requires
                        s[0] * prod(t) == 0,
                        s[0] != 0,
                ;
                let i = choose|i: int| 0 <= i < t.len() && t[i] == 0;
                assert(s[i + 1] == 0);
            }
        } else {
            assert forall|i: int| 0 <= i < s.len() implies s[i] != 0 by {
                if i == 0 {
                    if s[0] == 0 {
                        assert(s[0] * prod(t) == 0);
                    }
                } else {
                    assert(t[i - 1] == s[i]);
                    if s[i] == 0 {
                        assert(0 <= i - 1 < t.len() && t[i - 1] == 0);
                        assert(prod(t) == 0);
                        assert(s[0] * prod(t) == 0) by (nonlinear_arith)
                            requires
                                prod(t) == 0,
                        ;
                    }
                }
            }
        }
    }
}

/// With no size 0, clamping changes nothing.
pub proof fn lemma_clamp1_id(s: Seq<usize>)
    requires
        forall|i: int| 0 <= i < s.len() ==> s[i] >= 1,
    ensures
        clamp1(s) == s,
{
    assert(clamp1(s) =~= s);
}

/// Row-major strides with every size at least 1: each stride is the
/// product of the sizes after it, and the layout is contiguous.
pub proof fn contiguous_layout_law(sizes: Seq<usize>)
    requires
        strides_fit(sizes),
        forall|i: int| 0 <= i < sizes.len() ==> sizes[i] >= 1,
    ensures
        forall|i: int| 0 <= i < sizes.len() ==> #[trigger] contiguous_strides(sizes)[i] as int == prod(sizes.subrange(i + 1, sizes.len() as int)),
        is_contiguous_layout(sizes, contiguous_strides(sizes)),
{
    lemma_clamp1_id(sizes);
    assert forall|i: int| 0 <= i < sizes.len() implies #[trigger] contiguous_strides(sizes)[i] as int == prod(sizes.subrange(i + 1, sizes.len() as int)) by {
        lemma_prod_suffix_le(sizes, i + 1);
    }
}

/// Strides of a two-dimensional shape fit when its element count does.
pub proof fn lemma_two_fit(a: usize, b: usize)
    requires
        a * b <= usize::MAX,
    ensures
        strides_fit(seq![a, b]),
{
    let s = seq![a, b];
    let c = clamp1(s);
    lemma_clamp1_pos(s);
    assert(c =~= seq![c[0], c[1]]);
    assert(c.drop_first() =~= seq![c[1]]);
    assert(seq![c[1]].drop_first() =~= Seq::<usize>::empty());
    assert(prod(Seq::<usize>::empty()) == 1);
    assert(prod(seq![c[1]]) == c[1] * prod(Seq::<usize>::empty()));
    assert(prod(c) == c[0] * c[1]);
    if a == 0 {
        assert(c[0] == 1);
        assert(c[0] * c[1] == c[1]) by (nonlinear_arith)
            requires
                c[0] == 1,
        ;
    } else if b == 0 {
        assert(c[1] == 1);
        assert(c[0] == a);
        assert(c[0] * c[1] == c[0]) by (nonlinear_arith)
            requires
                c[1] == 1,
        ;
    } else {
        assert(c[0] == a && c[1] == b);
    }
    assert(prod(c) <= usize::MAX);
}

/// Strides of a one-dimensional shape always fit.
pub proof fn lemma_one_fit(a: usize)
    ensures
        strides_fit(seq![a]),
{
    let s = seq![a];
    let c = clamp1(s);
    lemma_clamp1_pos(s);
    assert(c.drop_first() =~= Seq::<usize>::empty());
    assert(prod(Seq::<usize>::empty()) == 1);
    assert(prod(c) == c[0] * prod(c.drop_first()));
}

/// A product is at most the product of the clamped sizes.
pub proof fn lemma_prod_le_extent(s: Seq<usize>)
    ensures
        prod(s) <= prod(clamp1(s)),
{
    lemma_prod_zero(s);
    lemma_clamp1_pos(s);
    lemma_prod_pos(clamp1(s));
    if prod(s) != 0 {
        assert forall|i: int| 0 <= i < s.len() implies s[i] >= 1 by {
            if s[i] == 0 {
                assert(exists|j: int| 0 <= j < s.len() && s[j] == 0);
            }
        }
        lemma_clamp1_id(s);
    }
}

/// Every entry of a clamped list is at least 1.
pub proof fn lemma_clamp1_pos(s: Seq<usize>)
    ensures
        clamp1(s).len() == s.len(),
        forall|i: int| 0 <= i < s.len() ==> #[trigger] clamp1(s)[i] >= 1,
        forall|i: int| 0 <= i < s.len() ==> #[trigger] clamp1(s)[i] == if s[i] == 0 { 1usize } else { s[i] },
{
}

/// The product of the clamped sizes, when it fits in `usize`.
pub fn extent(sizes: &[usize]) -> (r: Option<usize>)
    ensures
        r is Some <==> strides_fit(sizes@),
        r is Some ==> r->0 == prod(clamp1(sizes@)),
{
    let n = sizes.len();
    let ghost c = clamp1(sizes@);
    proof {
        lemma_clamp1_pos(sizes@);
        assert(c.subrange(n as int, n as int) =~= Seq::<usize>::empty());
    }
    let mut acc: usize = 1;
    let mut i: usize = n;
    while i > 0
        invariant
            i <= n,
            n == sizes@.len(),
            c == clamp1(sizes@),
            c.len() == n,
            forall|k: int| 0 <= k < n ==> #[trigger] c[k] >= 1,
            forall|k: int| 0 <= k < n ==> #[trigger] c[k] == if sizes@[k] == 0 { 1usize } else { sizes@[k] },
            acc as int == prod(c.subrange(i as int, n as int)),
        decreases i,
    {
        let s: usize = if sizes[i - 1] == 0 { 1 } else { sizes[i - 1] };
        proof {
            lemma_prod_suffix_step(c, i - 1);
            assert(c[i - 1] == s);
            assert(acc * s == s * acc) by (nonlinear_arith);
        }
        match acc.checked_mul(s) {
            Some(v) => {
                acc = v;
            },
            None => {
                proof {
                    lemma_prod_suffix_le(c, i - 1);
                }
                return None;
            },
        }
        i = i - 1;
    }
    proof {
        assert(c.subrange(0, n as int) =~= c);
    }
    Some(acc)
}

/// The number of elements of a shape.
pub fn numel_of(sizes: &[usize]) -> (r: usize)
    requires
        strides_fit(sizes@),
    ensures
        r == prod(sizes@),
{
    let e = extent(sizes);
    let n = sizes.len();
    let mut i: usize = 0;
    while i < n
        invariant
            i <= n,
            n == sizes@.len(),
            forall|k: int| 0 <= k < i ==> sizes@[k] != 0,
        decreases n - i,
    {
        if sizes[i] == 0 {
            proof {
                lemma_prod_zero(sizes@);
            }
            return 0;
        }
        i = i + 1;
    }
    proof {
        lemma_clamp1_id(sizes@);
    }
    match e {
        Some(v) => v,
        None => 0,
    }
}

/// Row-major strides of a shape.
pub fn row_major_strides(sizes: &[usize]) -> (r: Vec<usize>)
    requires
        strides_fit(sizes@),
    ensures
        r@ == contiguous_strides(sizes@),
{
    let n = sizes.len();
    let ghost c = clamp1(sizes@);
    proof {
        lemma_clamp1_pos(sizes@);
    }
    let mut strides: Vec<usize> = vec![1usize; n];
    if n == 0 {
        proof {
            assert(strides@ =~= contiguous_strides(sizes@));
        }
        return strides;
    }
    proof {
        assert(c.subrange(n as int, n as int) =~= Seq::<usize>::empty());
    }
    let mut i: usize = n - 1;
    while i > 0
        invariant
            0 <= i < n,
            n == sizes@.len(),
            c == clamp1(sizes@),
            c.len() == n,
            prod(c) <= usize::MAX,
            forall|k: int| 0 <= k < n ==> #[trigger] c[k] >= 1,
            forall|k: int| 0 <= k < n ==> #[trigger] c[k] == if sizes@[k] == 0 { 1usize } else { sizes@[k] },
            strides@.len() == n,
            forall|k: int| i <= k < n ==> #[trigger] strides@[k] as int == prod(c.subrange(k + 1, n as int)),
        decreases i,
    {
        let s: usize = if sizes[i] == 0 { 1 } else { sizes[i] };
        proof {
            lemma_prod_suffix_step(c, i as int);
            lemma_prod_suffix_le(c, i as int);
            assert(c[i as int] == s);
            assert(strides@[i as int] * s == s * strides@[i as int]) by (nonlinear_arith);
        }
        let v = strides[i] * s;
        strides.set(i - 1, v);
        i = i - 1;
    }
    proof {
        assert(strides@ =~= contiguous_strides(sizes@));
    }
    strides
}

} // verus!
