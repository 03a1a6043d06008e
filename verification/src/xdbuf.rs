use vstd::prelude::*;

use crate::errors::XdError;
use crate::indexing::{
    all_positive, flat_offset, in_bounds, lemma_flat_offset_bound, lemma_flat_offset_take_le,
    lemma_flat_offset_take_succ, lemma_prod_take_le, lemma_prod_take_succ, lemma_split_offset_len,
    prod_all, split_offset, strides_fit, strides_match,
};
use crate::walker::Walker;

verus! {

/// A dense `D`-dimensional buffer over flat contiguous storage.
///
/// The buffer owns `Π size[i]` elements together with the extent of each
/// dimension (`size`) and the derived stride table (`stride`), where
/// `stride[0] == 1` and `stride[i] == stride[i - 1] * size[i - 1]`: the
/// first dimension varies fastest. Reusing a single instance through
/// re-initialization avoids repeated allocation.
#[derive(Debug, Clone)]
pub struct XDBuf<T, const D: usize> {
    buf: Vec<T>,
    size: [usize; D],
    stride: [usize; D],
}

impl<T, const D: usize> XDBuf<T, D> {
    /// The flat element storage, in mathematical form.
    pub closed spec fn contents(&self) -> Seq<T> {
        self.buf@
    }

    /// The extent of each dimension.
    pub closed spec fn extents(&self) -> Seq<usize> {
        self.size@
    }

    /// The stride of each dimension.
    pub closed spec fn strides(&self) -> Seq<usize> {
        self.stride@
    }

    /// Structural invariant: every extent is positive, the stride table is
    /// derived from the extents, and the storage holds exactly the product
    /// of the extents.
    pub open spec fn wf(&self) -> bool {
        &&& all_positive(self.extents())
        &&& strides_match(self.strides(), self.extents())
        &&& self.contents().len() == prod_all(self.extents())
    }

    /// In a well-formed buffer every stride is at least one.
    pub proof fn lemma_wf_strides_pos(&self)
        requires
            self.wf(),
        ensures
            forall|i: int| 0 <= i < D ==> #[trigger] self.strides()[i] >= 1,
    {
        assert forall|i: int| 0 <= i < D implies #[trigger] self.strides()[i] >= 1 by {
            lemma_prod_take_le(self.extents(), i);
        }
    }

    /// Computes the number of elements a buffer of extents `size` holds:
    /// the product of all extents. Fails if any extent is zero or if the
    /// product exceeds the range of `usize`.
    pub fn calc_total_size(size: &[usize; D]) -> (r: Result<usize, XdError>)
        ensures
            match r {
                Ok(total) => {
                    &&& all_positive(size@)
                    &&& prod_all(size@) <= usize::MAX
                    &&& total == prod_all(size@)
                },
                Err(e) => {
                    &&& !(all_positive(size@) && prod_all(size@) <= usize::MAX)
                    &&& e == XdError::OutOfRange
                },
            },
    {
        let mut i: usize = 0;
        while i < D
            invariant
                0 <= i <= D,
                forall|j: int| 0 <= j < i ==> #[trigger] size@[j] > 0,
            decreases D - i,
        {
            if size[i] == 0 {
                return Err(XdError::OutOfRange);
            }
            i += 1;
        }
        assert(all_positive(size@));
        let mut acc: usize = 1;
        let mut k: usize = 0;
        assert(size@.take(0) =~= Seq::<usize>::empty());
        while k < D
            invariant
                0 <= k <= D,
                all_positive(size@),
                acc == prod_all(size@.take(k as int)),
            decreases D - k,
        {
            proof {
                lemma_prod_take_succ(size@, k as int);
            }
            match acc.checked_mul(size[k]) {
                Some(v) => {
                    acc = v;
                },
                None => {
                    proof {
                        lemma_prod_take_le(size@, k as int + 1);
                    }
                    return Err(XdError::OutOfRange);
                },
            }
            k += 1;
        }
        assert(size@.take(D as int) =~= size@);
        Ok(acc)
    }

    /// Derives the stride table from an extent vector: `stride[0] == 1` and
    /// `stride[i] == stride[i - 1] * size[i - 1]`. Fails only if a stride
    /// would exceed the range of `usize`.
    pub fn calc_dim_stride(size: &[usize; D]) -> (r: Result<[usize; D], XdError>)
        ensures
            match r {
                Ok(stride) => strides_fit(size@) && strides_match(stride@, size@),
                Err(e) => !strides_fit(size@) && e == XdError::OutOfRange,
            },
    {
        let mut stride: [usize; D] = [1; D];
        assert(size@.take(0) =~= Seq::<usize>::empty());
        let mut i: usize = 1;
        while i < D
            invariant
                D >= 1 ==> 1 <= i <= D,
                forall|j: int| 0 <= j < i && j < D ==> #[trigger] stride@[j] == prod_all(
                    size@.take(j),
                ),
            decreases D - i,
        {
            proof {
                lemma_prod_take_succ(size@, i as int - 1);
            }
            match stride[i - 1].checked_mul(size[i - 1]) {
                Some(v) => {
                    stride[i] = v;
                },
                None => {
                    return Err(XdError::OutOfRange);
                },
            }
            i += 1;
        }
        assert forall|k: int| 0 <= k < size@.len() implies prod_all(
            #[trigger] size@.take(k),
        ) <= usize::MAX by {
            assert(stride@[k] == prod_all(size@.take(k)));
        }
        Ok(stride)
    }

    /// Converts a coordinate vector to its flat offset,
    /// `Σ index[i] * stride[i]`. Fails only if an intermediate product or
    /// the running sum would exceed the range of `usize`; per-axis bounds
    /// are not checked here.
    pub fn to_scalar_index(&self, index: &[usize; D]) -> (r: Result<usize, XdError>)
        ensures
            match r {
                Ok(offset) => {
                    &&& flat_offset(index@, self.strides()) <= usize::MAX
                    &&& offset == flat_offset(index@, self.strides())
                },
                Err(e) => {
                    &&& flat_offset(index@, self.strides()) > usize::MAX
                    &&& e == XdError::OutOfRange
                },
            },
    {
        let mut acc: usize = 0;
        let mut i: usize = 0;
        assert(index@.take(0) =~= Seq::<usize>::empty());
        assert(self.strides().take(0) =~= Seq::<usize>::empty());
        while i < D
            invariant
                0 <= i <= D,
                acc == flat_offset(index@.take(i as int), self.strides().take(i as int)),
            decreases D - i,
        {
            proof {
                lemma_flat_offset_take_succ(index@, self.strides(), i as int);
            }
            let term = match index[i].checked_mul(self.stride[i]) {
                Some(v) => v,
                None => {
                    proof {
                        lemma_flat_offset_take_le(index@, self.strides(), i as int + 1);
                    }
                    return Err(XdError::OutOfRange);
                },
            };
            acc = match acc.checked_add(term) {
                Some(v) => v,
                None => {
                    proof {
                        lemma_flat_offset_take_le(index@, self.strides(), i as int + 1);
                    }
                    return Err(XdError::OutOfRange);
                },
            };
            i += 1;
        }
        assert(index@.take(D as int) =~= index@);
        assert(self.strides().take(D as int) =~= self.strides());
        Ok(acc)
    }

    /// Checks that a coordinate vector lies within the buffer's extents on
    /// every axis.
    pub(crate) fn validate_index(&self, index: &[usize; D]) -> (r: Result<(), XdError>)
        ensures
            match r {
                Ok(u) => in_bounds(index@, self.extents()),
                Err(e) => !in_bounds(index@, self.extents()) && e == XdError::OutOfRange,
            },
    {
        let mut i: usize = 0;
        while i < D
            invariant
                0 <= i <= D,
                forall|j: int| 0 <= j < i ==> #[trigger] index@[j] < self.extents()[j],
            decreases D - i,
        {
            if index[i] >= self.size[i] {
                return Err(XdError::OutOfRange);
            }
            i += 1;
        }
        Ok(())
    }

    /// Converts a flat offset back to its coordinate vector, peeling
    /// dimensions from the highest stride down.
    pub(crate) fn to_mul_dim_index(&self, scalar: usize) -> (r: [usize; D])
        requires
            self.wf(),
        ensures
            r@ == split_offset(scalar as int, self.strides()),
    {
        proof {
            self.lemma_wf_strides_pos();
            lemma_split_offset_len(scalar as int, self.strides());
        }
        let ghost target = split_offset(scalar as int, self.strides());
        let mut index: [usize; D] = [0; D];
        let mut cur: usize = scalar;
        let mut i: usize = D;
        assert(self.strides().take(D as int) =~= self.strides());
        while i > 0
            invariant
                0 <= i <= D,
                forall|j: int| 0 <= j < D ==> #[trigger] self.strides()[j] >= 1,
                target == split_offset(scalar as int, self.strides()),
                target.len() == D,
                split_offset(cur as int, self.strides().take(i as int)) == target.take(i as int),
                forall|k: int| i <= k < D ==> #[trigger] index@[k] == target[k],
            decreases i,
        {
            i -= 1;
            let q = cur / self.stride[i];
            let rm = cur % self.stride[i];
            proof {
                let st = self.strides();
                let pre = st.take(i as int + 1);
                assert(pre.last() == st[i as int]);
                assert(pre.drop_last() =~= st.take(i as int));
                assert(split_offset(cur as int, pre) == split_offset(
                    rm as int,
                    st.take(i as int),
                ).push(q));
                lemma_split_offset_len(rm as int, st.take(i as int));
                assert(target.take(i as int + 1).last() == target[i as int]);
                assert(target[i as int] == q);
                assert(target.take(i as int + 1).take(i as int) =~= target.take(i as int));
                assert(split_offset(rm as int, st.take(i as int)).push(q).take(i as int) =~=
                    split_offset(rm as int, st.take(i as int)));
            }
            index[i] = q;
            cur = rm;
        }
        assert(index@ =~= target);
        index
    }

    /// Creates a buffer with the given extents, filling every element with
    /// a clone of `initial_value`.
    pub fn new(size: [usize; D], initial_value: T) -> (r: Result<Self, XdError>) where T: Clone
        ensures
            match r {
                Ok(b) => {
                    &&& all_positive(size@) && prod_all(size@) <= usize::MAX
                    &&& b.wf()
                    &&& b.extents() == size@
                    &&& b.contents().len() == prod_all(size@)
                    &&& forall|i: int|
                        0 <= i < b.contents().len() ==> cloned(
                            initial_value,
                            #[trigger] b.contents()[i],
                        )
                },
                Err(e) => {
                    &&& !(all_positive(size@) && prod_all(size@) <= usize::MAX)
                    &&& e == XdError::OutOfRange
                },
            },
    {
        let total_size = Self::calc_total_size(&size)?;
        assert(strides_fit(size@)) by {
            assert forall|k: int| 0 <= k < size@.len() implies prod_all(
                #[trigger] size@.take(k),
            ) <= usize::MAX by {
                lemma_prod_take_le(size@, k);
            }
        }
        let stride = Self::calc_dim_stride(&size)?;
        let mut buf: Vec<T> = Vec::with_capacity(total_size);
        buf.resize(total_size, initial_value);
        Ok(XDBuf { buf, size, stride })
    }

    /// Creates a buffer with the given extents over a pre-built flat
    /// sequence, whose length must equal the product of the extents.
    pub fn new_with_vec(size: [usize; D], initial_vec: Vec<T>) -> (r: Result<Self, XdError>)
        ensures
            match r {
                Ok(b) => {
                    &&& all_positive(size@) && prod_all(size@) <= usize::MAX
                    &&& initial_vec@.len() == prod_all(size@)
                    &&& b.wf()
                    &&& b.extents() == size@
                    &&& b.contents() == initial_vec@
                },
                Err(e) => {
                    ||| {
                        &&& !(all_positive(size@) && prod_all(size@) <= usize::MAX)
                        &&& e == XdError::OutOfRange
                    }
                    ||| {
                        &&& all_positive(size@) && prod_all(size@) <= usize::MAX
                        &&& initial_vec@.len() != prod_all(size@)
                        &&& e == XdError::ShapeMismatch
                    }
                },
            },
    {
        let total_size = Self::calc_total_size(&size)?;
        if initial_vec.len() != total_size {
            return Err(XdError::ShapeMismatch);
        }
        assert(strides_fit(size@)) by {
            assert forall|k: int| 0 <= k < size@.len() implies prod_all(
                #[trigger] size@.take(k),
            ) <= usize::MAX by {
                lemma_prod_take_le(size@, k);
            }
        }
        let stride = Self::calc_dim_stride(&size)?;
        Ok(XDBuf { buf: initial_vec, size, stride })
    }

    /// Re-initializes the buffer in place with new extents and a fill
    /// value. On failure the buffer is left unchanged; on success the
    /// previously reserved capacity is never reduced.
    pub fn init(&mut self, size: [usize; D], initial_value: T) -> (r: Result<(), XdError>) where
        T: Clone,

        ensures
            match r {
                Ok(u) => {
                    &&& all_positive(size@) && prod_all(size@) <= usize::MAX
                    &&& final(self).wf()
                    &&& final(self).extents() == size@
                    &&& final(self).contents().len() == prod_all(size@)
                    &&& forall|i: int|
                        0 <= i < final(self).contents().len() ==> cloned(
                            initial_value,
                            #[trigger] final(self).contents()[i],
                        )
                },
                Err(e) => {
                    &&& !(all_positive(size@) && prod_all(size@) <= usize::MAX)
                    &&& e == XdError::OutOfRange
                    &&& *final(self) == *old(self)
                },
            },
    {
        proof {
            assert forall|k: int|
                0 <= k < size@.len() && all_positive(size@) implies prod_all(
                #[trigger] size@.take(k),
            ) <= prod_all(size@) by {
                lemma_prod_take_le(size@, k);
            }
        }
        let stride = Self::calc_dim_stride(&size)?;
        let total_size = Self::calc_total_size(&size)?;
        self.size = size;
        self.stride = stride;
        self.buf.clear();
        self.buf.resize(total_size, initial_value);
        Ok(())
    }

    /// Re-initializes the buffer in place from a pre-built flat sequence,
    /// whose length must equal the product of the new extents. On failure
    /// the buffer is left unchanged; on success the previously reserved
    /// capacity is never reduced.
    pub fn init_with_vec(&mut self, size: [usize; D], initial_vec: Vec<T>) -> (r: Result<
        (),
        XdError,
    >)
        ensures
            match r {
                Ok(u) => {
                    &&& all_positive(size@) && prod_all(size@) <= usize::MAX
                    &&& initial_vec@.len() == prod_all(size@)
                    &&& final(self).wf()
                    &&& final(self).extents() == size@
                    &&& final(self).contents() == initial_vec@
                },
                Err(e) => {
                    &&& *final(self) == *old(self)
                    &&& {
                        ||| {
                            &&& !(all_positive(size@) && prod_all(size@) <= usize::MAX)
                            &&& e == XdError::OutOfRange
                        }
                        ||| {
                            &&& all_positive(size@) && prod_all(size@) <= usize::MAX
                            &&& initial_vec@.len() != prod_all(size@)
                            &&& e == XdError::ShapeMismatch
                        }
                    }
                },
            },
    {
        proof {
            assert forall|k: int|
                0 <= k < size@.len() && all_positive(size@) implies prod_all(
                #[trigger] size@.take(k),
            ) <= prod_all(size@) by {
                lemma_prod_take_le(size@, k);
            }
        }
        let stride = Self::calc_dim_stride(&size)?;
        let total_size = Self::calc_total_size(&size)?;
        let mut incoming = initial_vec;
        if incoming.len() != total_size {
            return Err(XdError::ShapeMismatch);
        }
        self.size = size;
        self.stride = stride;
        self.buf.clear();
        self.buf.append(&mut incoming);
        Ok(())
    }

    /// Returns a reference to the element at flat offset `index`, or
    /// `None` if the offset is out of range.
    pub fn get(&self, index: usize) -> (r: Option<&T>)
        ensures
            match r {
                Some(x) => index < self.contents().len() && *x == self.contents()[index as int],
                None => index >= self.contents().len(),
            },
    {
        if index >= self.buf.len() {
            return None;
        }
        Some(&self.buf[index])
    }

    /// Returns a mutable reference to the element at flat offset `index`,
    /// or `None` if the offset is out of range.
    pub fn get_mut(&mut self, index: usize) -> (r: Option<&mut T>)
        ensures
            index < old(self).contents().len() ==> {
                &&& r is Some
                &&& *r.unwrap() == old(self).contents()[index as int]
                &&& final(self).contents() == old(self).contents().update(
                    index as int,
                    *final(r.unwrap()),
                )
                &&& final(self).extents() == old(self).extents()
                &&& final(self).strides() == old(self).strides()
            },
            index >= old(self).contents().len() ==> r is None && *final(self) == *old(self),
    {
        if index >= self.buf.len() {
            return None;
        }
        Some(&mut self.buf[index])
    }

    /// Overwrites the element at flat offset `index`; fails if the offset
    /// is out of range.
    pub fn set(&mut self, index: usize, value: T) -> (r: Result<(), XdError>)
        ensures
            match r {
                Ok(u) => {
                    &&& index < old(self).contents().len()
                    &&& final(self).contents() == old(self).contents().update(index as int, value)
                    &&& final(self).extents() == old(self).extents()
                    &&& final(self).strides() == old(self).strides()
                },
                Err(e) => {
                    &&& index >= old(self).contents().len()
                    &&& e == XdError::OutOfRange
                    &&& *final(self) == *old(self)
                },
            },
    {
        if index >= self.buf.len() {
            return Err(XdError::OutOfRange);
        }
        self.buf.set(index, value);
        Ok(())
    }

    /// Creates a `Walker` whose initial position is the given coordinate
    /// vector; fails if the coordinate lies outside the buffer's extents.
    pub fn walker_from(&self, index: [usize; D]) -> (r: Result<Walker<T, D>, XdError>)
        requires
            self.wf(),
        ensures
            match r {
                Ok(w) => {
                    &&& in_bounds(index@, self.extents())
                    &&& w.buffer() == *self
                    &&& w.pos() == flat_offset(index@, self.strides())
                    &&& w.wf()
                },
                Err(e) => !in_bounds(index@, self.extents()) && e == XdError::OutOfRange,
            },
    {
        self.validate_index(&index)?;
        proof {
            lemma_flat_offset_bound(index@, self.extents(), self.strides());
        }
        let total = self.len();
        assert(flat_offset(index@, self.strides()) < total);
        let scalar = self.to_scalar_index(&index)?;
        Ok(Walker::bind_at(self, scalar))
    }

    /// Returns the number of elements the buffer holds.
    pub fn len(&self) -> (r: usize)
        ensures
            r == self.contents().len(),
    {
        self.buf.len()
    }

    /// Returns the range of valid flat offsets.
    pub fn idx_range(&self) -> (r: core::ops::Range<usize>)
        ensures
            r.start == 0 && r.end == self.contents().len(),
    {
        0..self.buf.len()
    }

    /// Returns the stride of each dimension.
    pub fn stride(&self) -> (r: &[usize; D])
        ensures
            r@ == self.strides(),
    {
        &self.stride
    }

    /// Shrinks the reserved storage capacity as far as possible; the
    /// contents, extents and strides are unchanged.
    pub fn shrink_to_fit(&mut self)
        ensures
            final(self).contents() == old(self).contents(),
            final(self).extents() == old(self).extents(),
            final(self).strides() == old(self).strides(),
    {
        vec_shrink_to_fit(&mut self.buf);
    }
}

/// Relies on `Vec::shrink_to_fit`: it only reduces the allocated capacity
/// and leaves the vector's elements unchanged.
#[verifier::external_body]
fn vec_shrink_to_fit<T>(v: &mut Vec<T>)
    ensures
        final(v)@ == old(v)@,
{
    v.shrink_to_fit()
}

} // verus!
