//! The mathematical model of stride-based addressing: products of extent
//! vectors, the coordinate-to-offset sum, and the offset-to-coordinate
//! decomposition, together with the lemmas that relate them.

use vstd::arithmetic::div_mod::{
    lemma_div_pos_is_pos, lemma_fundamental_div_mod, lemma_fundamental_div_mod_converse,
    lemma_multiply_divide_lt,
};
use vstd::prelude::*;

verus! {

/// The product of all entries of `s`, as a mathematical integer.
pub open spec fn prod_all(s: Seq<usize>) -> int
    decreases s.len(),
{
    if s.len() == 0 {
        1
    } else {
        prod_all(s.drop_last()) * s.last()
    }
}

/// Every entry of `size` is positive.
pub open spec fn all_positive(size: Seq<usize>) -> bool {
    forall|i: int| 0 <= i < size.len() ==> #[trigger] size[i] > 0
}

/// `stride` is the stride vector derived from `size`: `stride[i]` is the
/// product of the extents of the dimensions below `i` (so `stride[0] == 1`).
pub open spec fn strides_match(stride: Seq<usize>, size: Seq<usize>) -> bool {
    &&& stride.len() == size.len()
    &&& forall|i: int|
        0 <= i < size.len() ==> #[trigger] stride[i] == prod_all(size.take(i))
}

/// `index` is a coordinate vector lying within `size` on every axis.
pub open spec fn in_bounds(index: Seq<usize>, size: Seq<usize>) -> bool {
    &&& index.len() == size.len()
    &&& forall|i: int| 0 <= i < index.len() ==> #[trigger] index[i] < size[i]
}

/// Every strict-prefix product of `size` fits in `usize`; this is exactly
/// the condition under which the stride vector is computable.
pub open spec fn strides_fit(size: Seq<usize>) -> bool {
    forall|k: int| 0 <= k < size.len() ==> prod_all(#[trigger] size.take(k)) <= usize::MAX
}

/// The flat offset addressed by a coordinate vector: `Σ index[i] * stride[i]`.
pub open spec fn flat_offset(index: Seq<usize>, stride: Seq<usize>) -> int
    recommends
        index.len() == stride.len(),
    decreases index.len(),
{
    if index.len() == 0 {
        0
    } else {
        flat_offset(index.drop_last(), stride.drop_last()) + index.last() * stride.last()
    }
}

/// The mixed-radix decomposition of a flat offset: from the highest stride
/// down, digit `i` is the quotient by `stride[i]` of what the higher digits
/// leave over.
pub open spec fn split_offset(scalar: int, stride: Seq<usize>) -> Seq<usize>
    recommends
        forall|i: int| 0 <= i < stride.len() ==> #[trigger] stride[i] >= 1,
    decreases stride.len(),
{
    if stride.len() == 0 {
        Seq::empty()
    } else {
        split_offset(scalar % (stride.last() as int), stride.drop_last()).push(
            (scalar / (stride.last() as int)) as usize,
        )
    }
}

/// The signed flat-offset displacement of a step vector:
/// `Σ step[i] * stride[i]`.
pub open spec fn step_delta(step: Seq<isize>, stride: Seq<usize>) -> int
    recommends
        step.len() == stride.len(),
    decreases step.len(),
{
    if step.len() == 0 {
        0
    } else {
        step_delta(step.drop_last(), stride.drop_last()) + step.last() * stride.last()
    }
}

/// The machine arithmetic of a relative step stays in range: every
/// per-axis product and every running partial sum of the signed
/// displacement fits in `isize`.
pub open spec fn step_delta_fits(step: Seq<isize>, stride: Seq<usize>) -> bool {
    &&& forall|i: int|
        0 <= i < step.len() ==> isize::MIN <= (#[trigger] step[i]) * stride[i] <= isize::MAX
    &&& forall|k: int|
        0 <= k <= step.len() ==> isize::MIN <= step_delta(
            #[trigger] step.take(k),
            stride.take(k),
        ) <= isize::MAX
}

/// Adding one axis to a prefix adds that axis's contribution to the
/// displacement of the prefix.
pub proof fn lemma_step_delta_take_succ(step: Seq<isize>, stride: Seq<usize>, k: int)
    requires
        step.len() == stride.len(),
        0 <= k < step.len(),
    ensures
        step_delta(step.take(k + 1), stride.take(k + 1)) == step_delta(
            step.take(k),
            stride.take(k),
        ) + step[k] * stride[k],
{
    assert(step.take(k + 1).drop_last() =~= step.take(k));
    assert(stride.take(k + 1).drop_last() =~= stride.take(k));
}

/// A decomposition has one digit per stride entry.
pub proof fn lemma_split_offset_len(scalar: int, stride: Seq<usize>)
    ensures
        split_offset(scalar, stride).len() == stride.len(),
    decreases stride.len(),
{
    if stride.len() > 0 {
        lemma_split_offset_len(scalar % (stride.last() as int), stride.drop_last());
    }
}

/// The product of a sequence of positive extents is positive.
pub proof fn lemma_prod_all_pos(s: Seq<usize>)
    requires
        all_positive(s),
    ensures
        prod_all(s) >= 1,
    decreases s.len(),
{
    if s.len() > 0 {
        assert(all_positive(s.drop_last()));
        lemma_prod_all_pos(s.drop_last());
        assert(prod_all(s) >= 1) by (nonlinear_arith)
            requires
                prod_all(s) == prod_all(s.drop_last()) * s.last(),
                prod_all(s.drop_last()) >= 1,
                s.last() >= 1,
        ;
    }
}

/// Extending a prefix by one entry multiplies its product by that entry.
pub proof fn lemma_prod_take_succ(s: Seq<usize>, k: int)
    requires
        0 <= k < s.len(),
    ensures
        prod_all(s.take(k + 1)) == prod_all(s.take(k)) * s[k],
{
    assert(s.take(k + 1).drop_last() =~= s.take(k));
    assert(s.take(k + 1).last() == s[k]);
}

/// With positive extents, a prefix product never exceeds the total product.
pub proof fn lemma_prod_take_le(s: Seq<usize>, k: int)
    requires
        all_positive(s),
        0 <= k <= s.len(),
    ensures
        1 <= prod_all(s.take(k)) <= prod_all(s),
    decreases s.len() - k,
{
    if k == s.len() {
        assert(s.take(k) =~= s);
        lemma_prod_all_pos(s);
    } else {
        lemma_prod_take_le(s, k + 1);
        lemma_prod_take_succ(s, k);
        assert(all_positive(s.take(k)));
        lemma_prod_all_pos(s.take(k));
        assert(prod_all(s.take(k)) <= prod_all(s.take(k + 1))) by (nonlinear_arith)
            requires
                prod_all(s.take(k + 1)) == prod_all(s.take(k)) * s[k],
                prod_all(s.take(k)) >= 1,
                s[k] >= 1,
        ;
    }
}

/// Dropping the last axis of matching stride and size vectors leaves
/// matching vectors.
proof fn lemma_strides_match_drop_last(stride: Seq<usize>, size: Seq<usize>)
    requires
        strides_match(stride, size),
        size.len() > 0,
    ensures
        strides_match(stride.drop_last(), size.drop_last()),
{
    let n = size.len() - 1;
    assert forall|i: int| 0 <= i < n implies #[trigger] stride.drop_last()[i] == prod_all(
        size.drop_last().take(i),
    ) by {
        assert(size.drop_last().take(i) =~= size.take(i));
        assert(stride.drop_last()[i] == stride[i]);
    }
}

/// A coordinate vector within bounds addresses an offset below the total
/// size of the buffer.
pub proof fn lemma_flat_offset_bound(index: Seq<usize>, size: Seq<usize>, stride: Seq<usize>)
    requires
        strides_match(stride, size),
        in_bounds(index, size),
    ensures
        0 <= flat_offset(index, stride) < prod_all(size),
    decreases index.len(),
{
    if index.len() == 0 {
    } else {
        let n = index.len() - 1;
        lemma_strides_match_drop_last(stride, size);
        assert(in_bounds(index.drop_last(), size.drop_last()));
        lemma_flat_offset_bound(index.drop_last(), size.drop_last(), stride.drop_last());
        assert(size.take(n) =~= size.drop_last());
        assert(stride[n] == prod_all(size.drop_last()));
        assert(prod_all(size) == prod_all(size.drop_last()) * size[n]);
        let a = flat_offset(index.drop_last(), stride.drop_last());
        assert(flat_offset(index, stride) == a + index[n] * stride[n]);
        assert(a + index[n] * stride[n] < prod_all(size.drop_last()) * size[n])
            by (nonlinear_arith)
            requires
                0 <= a < prod_all(size.drop_last()),
                stride[n] == prod_all(size.drop_last()),
                0 <= index[n] < size[n],
        ;
        assert(a + index[n] * stride[n] >= 0) by (nonlinear_arith)
            requires
                a >= 0,
                index[n] >= 0,
                stride[n] >= 0,
        ;
    }
}

/// Round trip: decomposing the flat offset of an in-bounds coordinate
/// vector gives back that coordinate vector.
pub proof fn lemma_round_trip(index: Seq<usize>, size: Seq<usize>, stride: Seq<usize>)
    requires
        strides_match(stride, size),
        in_bounds(index, size),
    ensures
        split_offset(flat_offset(index, stride), stride) == index,
    decreases index.len(),
{
    if index.len() == 0 {
        assert(split_offset(flat_offset(index, stride), stride) =~= index);
    } else {
        let n = index.len() - 1;
        lemma_strides_match_drop_last(stride, size);
        assert(in_bounds(index.drop_last(), size.drop_last()));
        lemma_flat_offset_bound(index.drop_last(), size.drop_last(), stride.drop_last());
        assert(size.take(n) =~= size.drop_last());
        let s = stride[n] as int;
        assert(s == prod_all(size.drop_last()));
        let a = flat_offset(index.drop_last(), stride.drop_last());
        let o = flat_offset(index, stride);
        assert(o == a + index[n] * s);
        lemma_fundamental_div_mod_converse(o, s, index[n] as int, a);
        assert(o / s == index[n] && o % s == a);
        lemma_round_trip(index.drop_last(), size.drop_last(), stride.drop_last());
        assert(split_offset(o, stride) == split_offset(a, stride.drop_last()).push(
            ((o / s) as usize),
        ));
        assert(split_offset(o, stride) =~= index);
    }
}

/// Within bounds, the coordinate-to-offset map is injective: distinct
/// coordinate vectors never share a flat offset.
pub proof fn lemma_offset_unique(
    a: Seq<usize>,
    b: Seq<usize>,
    size: Seq<usize>,
    stride: Seq<usize>,
)
    requires
        strides_match(stride, size),
        in_bounds(a, size),
        in_bounds(b, size),
        flat_offset(a, stride) == flat_offset(b, stride),
    ensures
        a == b,
{
    lemma_round_trip(a, size, stride);
    lemma_round_trip(b, size, stride);
}

/// Decomposing any valid flat offset gives an in-bounds coordinate vector
/// whose flat offset is the original one.
pub proof fn lemma_split_offset_valid(scalar: int, size: Seq<usize>, stride: Seq<usize>)
    requires
        strides_match(stride, size),
        all_positive(size),
        0 <= scalar < prod_all(size),
    ensures
        in_bounds(split_offset(scalar, stride), size),
        flat_offset(split_offset(scalar, stride), stride) == scalar,
    decreases size.len(),
{
    if size.len() == 0 {
        assert(split_offset(scalar, stride) =~= Seq::<usize>::empty());
    } else {
        let n = size.len() - 1;
        lemma_strides_match_drop_last(stride, size);
        assert(all_positive(size.drop_last()));
        assert(size.take(n) =~= size.drop_last());
        let s = stride[n] as int;
        assert(s == prod_all(size.drop_last()));
        lemma_prod_all_pos(size.drop_last());
        let q = scalar / s;
        let r = scalar % s;
        lemma_fundamental_div_mod(scalar, s);
        assert(scalar == s * q + r);
        lemma_div_pos_is_pos(scalar, s);
        assert(prod_all(size) == s * size[n]);
        lemma_multiply_divide_lt(scalar, s, size[n] as int);
        assert(q < size[n]);
        assert(0 <= r < s);
        lemma_split_offset_valid(r, size.drop_last(), stride.drop_last());
        let digits = split_offset(scalar, stride);
        assert(digits == split_offset(r, stride.drop_last()).push((q as usize)));
        assert(digits.drop_last() =~= split_offset(r, stride.drop_last()));
        assert(digits.last() == q as usize);
        assert(in_bounds(digits, size));
        assert(flat_offset(digits, stride) == r + q * s) by {
            assert(flat_offset(digits, stride) == flat_offset(
                digits.drop_last(),
                stride.drop_last(),
            ) + digits.last() * stride.last());
        }
        assert(r + q * s == scalar) by (nonlinear_arith)
            requires
                scalar == s * q + r,
        ;
    }
}

/// Adding one axis to a prefix adds that axis's contribution to the flat
/// offset of the prefix.
pub proof fn lemma_flat_offset_take_succ(index: Seq<usize>, stride: Seq<usize>, k: int)
    requires
        index.len() == stride.len(),
        0 <= k < index.len(),
    ensures
        flat_offset(index.take(k + 1), stride.take(k + 1)) == flat_offset(
            index.take(k),
            stride.take(k),
        ) + index[k] * stride[k],
{
    assert(index.take(k + 1).drop_last() =~= index.take(k));
    assert(stride.take(k + 1).drop_last() =~= stride.take(k));
}

/// The flat offset of a prefix never exceeds the flat offset of the whole
/// coordinate vector.
pub proof fn lemma_flat_offset_take_le(index: Seq<usize>, stride: Seq<usize>, k: int)
    requires
        index.len() == stride.len(),
        0 <= k <= index.len(),
    ensures
        0 <= flat_offset(index.take(k), stride.take(k)) <= flat_offset(index, stride),
    decreases index.len() - k,
{
    if k == index.len() {
        assert(index.take(k) =~= index);
        assert(stride.take(k) =~= stride);
        lemma_flat_offset_nonneg(index, stride);
    } else {
        lemma_flat_offset_take_le(index, stride, k + 1);
        lemma_flat_offset_take_succ(index, stride, k);
        lemma_flat_offset_nonneg(index.take(k), stride.take(k));
        assert(index[k] * stride[k] >= 0) by (nonlinear_arith)
            requires
                index[k] >= 0,
                stride[k] >= 0,
        ;
    }
}

/// A sum of products of nonnegative values is nonnegative.
proof fn lemma_flat_offset_nonneg(index: Seq<usize>, stride: Seq<usize>)
    ensures
        flat_offset(index, stride) >= 0,
    decreases index.len(),
{
    if index.len() > 0 {
        lemma_flat_offset_nonneg(index.drop_last(), stride.drop_last());
        assert(index.last() * stride.last() >= 0) by (nonlinear_arith)
            requires
                index.last() >= 0,
                stride.last() >= 0,
        ;
    }
}

} // verus!
