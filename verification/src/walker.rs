use vstd::prelude::*;

use crate::errors::XdError;
use crate::indexing::{
    flat_offset, in_bounds, lemma_split_offset_valid, lemma_step_delta_take_succ, split_offset,
    step_delta, step_delta_fits,
};
use crate::xdbuf::XDBuf;

verus! {

/// A bounds-checked cursor over an `XDBuf`.
///
/// A `Walker` borrows its buffer and tracks a single flat offset into it;
/// every move is a bounds-checked relative motion over the flat offset
/// space, validated before the position changes, and the buffer itself is
/// never mutated through a `Walker`.
#[derive(Debug, Clone, Copy)]
pub struct Walker<'a, T, const D: usize> {
    buf_into: &'a XDBuf<T, D>,
    current_index: usize,
}

impl<'a, T, const D: usize> Walker<'a, T, D> {
    /// The buffer this cursor is bound to.
    pub closed spec fn buffer(&self) -> XDBuf<T, D> {
        *self.buf_into
    }

    /// The cursor's current flat offset.
    pub closed spec fn pos(&self) -> usize {
        self.current_index
    }

    /// Validity: the underlying buffer is well-formed and the position is
    /// a valid offset into it.
    pub open spec fn wf(&self) -> bool {
        &&& self.buffer().wf()
        &&& self.pos() < self.buffer().contents().len()
    }

    /// The coordinate vector the current offset decomposes to.
    pub open spec fn coords(&self) -> Seq<usize> {
        split_offset(self.pos() as int, self.buffer().strides())
    }

    /// The predicate `f` can be called on every element from `from`
    /// (inclusive) to the end of the buffer, at its offset.
    pub open spec fn scan_callable<F: Fn(&T, usize) -> bool>(&self, f: F, from: usize) -> bool {
        forall|j: usize|
            from <= j < self.buffer().contents().len() ==> call_requires(
                f,
                (&self.buffer().contents()[j as int], j),
            )
    }

    /// Every element from the cursor's position (inclusive) up to `upto`
    /// (exclusive) dissatisfies the predicate `f`.
    pub open spec fn scan_misses<F: Fn(&T, usize) -> bool>(&self, f: F, upto: int) -> bool {
        forall|j: usize|
            self.pos() <= j < upto ==> call_ensures(
                f,
                (&self.buffer().contents()[j as int], j),
                false,
            )
    }

    /// Binds a cursor to `buf` at the flat offset `offset`.
    pub(crate) fn bind_at(buf: &'a XDBuf<T, D>, offset: usize) -> (w: Self)
        ensures
            w.buffer() == *buf,
            w.pos() == offset,
    {
        Walker { buf_into: buf, current_index: offset }
    }

    /// Returns the current position as a flat offset.
    pub fn index_s(&self) -> (r: usize)
        ensures
            r == self.pos(),
    {
        self.current_index
    }

    /// Returns the current position as a coordinate vector.
    pub fn index_m(&self) -> (r: [usize; D])
        requires
            self.wf(),
        ensures
            r@ == self.coords(),
            in_bounds(r@, self.buffer().extents()),
            flat_offset(r@, self.buffer().strides()) == self.pos(),
    {
        proof {
            lemma_split_offset_valid(
                self.pos() as int,
                self.buffer().extents(),
                self.buffer().strides(),
            );
        }
        self.buf_into.to_mul_dim_index(self.current_index)
    }

    /// Computes the target flat offset `position + Σ step[i] * stride[i]`,
    /// accumulating the signed displacement in `isize`. Fails if a
    /// per-axis product or a running partial sum leaves the range of
    /// `isize`, or if the target offset lies outside `[0, len)`; the
    /// motion is over the flat offset space, so a step may carry across
    /// axis boundaries as long as the target offset stays valid.
    pub fn index_(&self, step: &[isize; D]) -> (r: Result<usize, XdError>)
        requires
            self.wf(),
        ensures
            match r {
                Ok(o) => {
                    &&& step_delta_fits(step@, self.buffer().strides())
                    &&& 0 <= self.pos() + step_delta(step@, self.buffer().strides())
                        < self.buffer().contents().len()
                    &&& o == self.pos() + step_delta(step@, self.buffer().strides())
                },
                Err(e) => {
                    &&& !(step_delta_fits(step@, self.buffer().strides()) && 0 <= self.pos()
                        + step_delta(step@, self.buffer().strides())
                        < self.buffer().contents().len())
                    &&& e == XdError::OutOfRange
                },
            },
    {
        let stride = self.buf_into.stride();
        let mut acc: isize = 0;
        let mut i: usize = 0;
        assert(step@.take(0) =~= Seq::<isize>::empty());
        assert(stride@.take(0) =~= Seq::<usize>::empty());
        while i < D
            invariant
                0 <= i <= D,
                self.wf(),
                stride@ == self.buffer().strides(),
                acc == step_delta(step@.take(i as int), stride@.take(i as int)),
                forall|j: int|
                    0 <= j < i ==> isize::MIN <= (#[trigger] step@[j]) * stride@[j] <= isize::MAX,
                forall|k: int|
                    0 <= k <= i ==> isize::MIN <= step_delta(
                        #[trigger] step@.take(k),
                        stride@.take(k),
                    ) <= isize::MAX,
            decreases D - i,
        {
            proof {
                lemma_step_delta_take_succ(step@, stride@, i as int);
            }
            let term_wide: i128 = match (step[i] as i128).checked_mul(stride[i] as i128) {
                Some(p) => p,
                None => {
                    assert(!(isize::MIN <= step@[i as int] * stride@[i as int] <= isize::MAX));
                    return Err(XdError::OutOfRange);
                },
            };
            if term_wide < isize::MIN as i128 || term_wide > isize::MAX as i128 {
                assert(!(isize::MIN <= step@[i as int] * stride@[i as int] <= isize::MAX));
                return Err(XdError::OutOfRange);
            }
            let term: isize = term_wide as isize;
            acc = match acc.checked_add(term) {
                Some(v) => v,
                None => {
                    assert(!(isize::MIN <= step_delta(
                        step@.take(i as int + 1),
                        stride@.take(i as int + 1),
                    ) <= isize::MAX));
                    return Err(XdError::OutOfRange);
                },
            };
            i += 1;
        }
        assert(step@.take(D as int) =~= step@);
        assert(stride@.take(D as int) =~= stride@);
        let len = self.buf_into.len();
        let target = match self.current_index.checked_add_signed(acc) {
            Some(v) => v,
            None => {
                return Err(XdError::OutOfRange);
            },
        };
        if target >= len {
            return Err(XdError::OutOfRange);
        }
        Ok(target)
    }

    /// Moves to the target flat offset `position + Σ step[i] * stride[i]`,
    /// returning a handle for chaining. Fails, leaving the position
    /// unchanged, under exactly the conditions of `index_`.
    pub fn as_(&mut self, step: &[isize; D]) -> (r: Result<&mut Self, XdError>)
        requires
            old(self).wf(),
        ensures
            r is Ok ==> {
                &&& step_delta_fits(step@, old(self).buffer().strides())
                &&& 0 <= old(self).pos() + step_delta(step@, old(self).buffer().strides())
                    < old(self).buffer().contents().len()
                &&& (*r->Ok_0).buffer() == old(self).buffer()
                &&& (*r->Ok_0).pos() == old(self).pos() + step_delta(
                    step@,
                    old(self).buffer().strides(),
                )
                &&& (*r->Ok_0).wf()
                &&& *final(self) == *final(r->Ok_0)
            },
            r is Err ==> {
                &&& !(step_delta_fits(step@, old(self).buffer().strides()) && 0 <= old(self).pos()
                    + step_delta(step@, old(self).buffer().strides())
                    < old(self).buffer().contents().len())
                &&& r->Err_0 == XdError::OutOfRange
                &&& *final(self) == *old(self)
            },
    {
        self.current_index = self.index_(step)?;
        Ok(self)
    }

    /// Moves to the target flat offset `position + Σ step[i] * stride[i]`,
    /// consuming the cursor and returning the moved copy. Fails under
    /// exactly the conditions of `index_`.
    pub fn into_(self, step: &[isize; D]) -> (r: Result<Self, XdError>)
        requires
            self.wf(),
        ensures
            match r {
                Ok(w) => {
                    &&& step_delta_fits(step@, self.buffer().strides())
                    &&& 0 <= self.pos() + step_delta(step@, self.buffer().strides())
                        < self.buffer().contents().len()
                    &&& w.buffer() == self.buffer()
                    &&& w.pos() == self.pos() + step_delta(step@, self.buffer().strides())
                    &&& w.wf()
                },
                Err(e) => {
                    &&& !(step_delta_fits(step@, self.buffer().strides()) && 0 <= self.pos()
                        + step_delta(step@, self.buffer().strides())
                        < self.buffer().contents().len())
                    &&& e == XdError::OutOfRange
                },
            },
    {
        let mut moved = self;
        moved.as_(step)?;
        Ok(moved)
    }

    /// Computes the next flat offset, `position + 1`. Fails if that
    /// reaches or exceeds the end of the buffer.
    pub fn next_index(&self) -> (r: Result<usize, XdError>)
        requires
            self.wf(),
        ensures
            match r {
                Ok(o) => {
                    &&& o == self.pos() + 1
                    &&& self.pos() + 1 < self.buffer().contents().len()
                },
                Err(e) => {
                    &&& self.pos() + 1 >= self.buffer().contents().len()
                    &&& e == XdError::OutOfRange
                },
            },
    {
        let len = self.buf_into.len();
        let next = match self.current_index.checked_add(1) {
            Some(v) => v,
            None => {
                return Err(XdError::OutOfRange);
            },
        };
        if next >= len {
            return Err(XdError::OutOfRange);
        }
        Ok(next)
    }

    /// Moves to the next flat offset, returning a handle for chaining.
    /// Fails, leaving the position unchanged, at the last valid offset.
    pub fn as_next(&mut self) -> (r: Result<&mut Self, XdError>)
        requires
            old(self).wf(),
        ensures
            r is Ok ==> {
                &&& old(self).pos() + 1 < old(self).buffer().contents().len()
                &&& (*r->Ok_0).buffer() == old(self).buffer()
                &&& (*r->Ok_0).pos() == old(self).pos() + 1
                &&& (*r->Ok_0).wf()
                &&& *final(self) == *final(r->Ok_0)
            },
            r is Err ==> {
                &&& old(self).pos() + 1 >= old(self).buffer().contents().len()
                &&& r->Err_0 == XdError::OutOfRange
                &&& *final(self) == *old(self)
            },
    {
        self.current_index = self.next_index()?;
        Ok(self)
    }

    /// Moves to the next flat offset, consuming the cursor and returning
    /// the moved copy. Fails at the last valid offset.
    pub fn into_next(self) -> (r: Result<Self, XdError>)
        requires
            self.wf(),
        ensures
            match r {
                Ok(w) => {
                    &&& self.pos() + 1 < self.buffer().contents().len()
                    &&& w.buffer() == self.buffer()
                    &&& w.pos() == self.pos() + 1
                    &&& w.wf()
                },
                Err(e) => {
                    &&& self.pos() + 1 >= self.buffer().contents().len()
                    &&& e == XdError::OutOfRange
                },
            },
    {
        let mut moved = self;
        moved.as_next()?;
        Ok(moved)
    }

    /// Computes the previous flat offset, `position - 1`. Fails at offset
    /// zero.
    pub fn prev_index(&self) -> (r: Result<usize, XdError>)
        requires
            self.wf(),
        ensures
            match r {
                Ok(o) => {
                    &&& o == self.pos() - 1
                    &&& self.pos() >= 1
                },
                Err(e) => {
                    &&& self.pos() == 0
                    &&& e == XdError::OutOfRange
                },
            },
    {
        let len = self.buf_into.len();
        let prev = match self.current_index.checked_sub(1) {
            Some(v) => v,
            None => {
                return Err(XdError::OutOfRange);
            },
        };
        if prev >= len {
            return Err(XdError::OutOfRange);
        }
        Ok(prev)
    }

    /// Moves to the previous flat offset, returning a handle for
    /// chaining. Fails, leaving the position unchanged, at offset zero.
    pub fn as_prev(&mut self) -> (r: Result<&mut Self, XdError>)
        requires
            old(self).wf(),
        ensures
            r is Ok ==> {
                &&& old(self).pos() >= 1
                &&& (*r->Ok_0).buffer() == old(self).buffer()
                &&& (*r->Ok_0).pos() == old(self).pos() - 1
                &&& (*r->Ok_0).wf()
                &&& *final(self) == *final(r->Ok_0)
            },
            r is Err ==> {
                &&& old(self).pos() == 0
                &&& r->Err_0 == XdError::OutOfRange
                &&& *final(self) == *old(self)
            },
    {
        self.current_index = self.prev_index()?;
        Ok(self)
    }

    /// Moves to the previous flat offset, consuming the cursor and
    /// returning the moved copy. Fails at offset zero.
    pub fn into_prev(self) -> (r: Result<Self, XdError>)
        requires
            self.wf(),
        ensures
            match r {
                Ok(w) => {
                    &&& self.pos() >= 1
                    &&& w.buffer() == self.buffer()
                    &&& w.pos() == self.pos() - 1
                    &&& w.wf()
                },
                Err(e) => {
                    &&& self.pos() == 0
                    &&& e == XdError::OutOfRange
                },
            },
    {
        let mut moved = self;
        moved.as_prev()?;
        Ok(moved)
    }

    /// Scans forward from the current offset (inclusive) and returns the
    /// first offset whose element satisfies the predicate `f`; the
    /// predicate also receives the offset it is probed at. Fails once the
    /// end of the buffer is reached with no match.
    pub fn index_until<F: Fn(&T, usize) -> bool>(&self, f: F) -> (r: Result<usize, XdError>)
        requires
            self.wf(),
            self.scan_callable(f, self.pos()),
        ensures
            match r {
                Ok(o) => {
                    &&& self.pos() <= o < self.buffer().contents().len()
                    &&& call_ensures(f, (&self.buffer().contents()[o as int], o), true)
                    &&& self.scan_misses(f, o as int)
                },
                Err(e) => {
                    &&& e == XdError::NoMatch
                    &&& self.scan_misses(f, self.buffer().contents().len() as int)
                },
            },
    {
        let len = self.buf_into.len();
        let mut index = self.current_index;
        loop
            invariant
                self.wf(),
                self.scan_callable(f, self.pos()),
                len == self.buffer().contents().len(),
                self.pos() <= index < len,
                self.scan_misses(f, index as int),
            decreases len - index,
        {
            let x = self.buf_into.get(index).unwrap();
            if f(x, index) {
                return Ok(index);
            }
            index = match index.checked_add(1) {
                Some(v) => v,
                None => {
                    return Err(XdError::NoMatch);
                },
            };
            if index >= len {
                return Err(XdError::NoMatch);
            }
        }
    }

    /// Scans forward as `index_until` does and moves to the first
    /// matching offset, returning a handle for chaining. Fails, leaving
    /// the position unchanged, if no element matches.
    pub fn as_until<F: Fn(&T, usize) -> bool>(&mut self, f: F) -> (r: Result<&mut Self, XdError>)
        requires
            old(self).wf(),
            old(self).scan_callable(f, old(self).pos()),
        ensures
            r is Ok ==> {
                &&& old(self).pos() <= (*r->Ok_0).pos() < old(self).buffer().contents().len()
                &&& (*r->Ok_0).buffer() == old(self).buffer()
                &&& call_ensures(
                    f,
                    (&old(self).buffer().contents()[(*r->Ok_0).pos() as int], (*r->Ok_0).pos()),
                    true,
                )
                &&& old(self).scan_misses(f, (*r->Ok_0).pos() as int)
                &&& (*r->Ok_0).wf()
                &&& *final(self) == *final(r->Ok_0)
            },
            r is Err ==> {
                &&& r->Err_0 == XdError::NoMatch
                &&& old(self).scan_misses(f, old(self).buffer().contents().len() as int)
                &&& *final(self) == *old(self)
            },
    {
        self.current_index = self.index_until(f)?;
        Ok(self)
    }

    /// Scans forward as `index_until` does, consuming the cursor and
    /// returning a copy at the first matching offset. Fails if no element
    /// matches.
    pub fn into_until<F: Fn(&T, usize) -> bool>(self, f: F) -> (r: Result<Self, XdError>)
        requires
            self.wf(),
            self.scan_callable(f, self.pos()),
        ensures
            match r {
                Ok(w) => {
                    &&& self.pos() <= w.pos() < self.buffer().contents().len()
                    &&& w.buffer() == self.buffer()
                    &&& call_ensures(f, (&self.buffer().contents()[w.pos() as int], w.pos()), true)
                    &&& self.scan_misses(f, w.pos() as int)
                    &&& w.wf()
                },
                Err(e) => {
                    &&& e == XdError::NoMatch
                    &&& self.scan_misses(f, self.buffer().contents().len() as int)
                },
            },
    {
        let mut moved = self;
        moved.as_until(f)?;
        Ok(moved)
    }
}

} // verus!
