use vstd::prelude::*;
use crate::grid::{copy_usizes, copy_vec, logical, materialize, one_seq, ones_vec, zero_seq,
    zeros_vec};
use crate::rng::rng_from_seed;
use crate::scalar::Scalar;
use crate::shapes::{addr_ok, cstrides, lemma_addr_ok_contiguous, lemma_addr_ok_zero_extent,
    lemma_numel_zero, numel, numel_of, shape_ok, strides_of};
use crate::tape::{OwnedTape, Tape};

verus! {

/// The error a host backend reports: a flat buffer was offered for a shape
/// that wants a different number of elements.
#[derive(Clone, Copy, Debug, PartialEq, Eq, Structural)]
pub enum CpuError {
    WrongNumElements,
}

/// A tape-free copy of a tensor, as captured into a backward step. It keeps
/// the identity, the storage, and the view, and drops the recording state.
pub struct Snap<E> {
    pub id: u64,
    pub data: Vec<E>,
    pub shape: Vec<usize>,
    pub strides: Vec<usize>,
}

impl<E: Scalar> Snap<E> {
    pub open spec fn wf(self) -> bool {
        &&& shape_ok(self.shape@)
        &&& self.strides@.len() == self.shape@.len()
        &&& addr_ok(self.shape@, self.strides@, 0, self.data@.len() as int)
    }

    /// The logical elements seen through the view.
    pub open spec fn elems(self) -> Seq<E> {
        logical(self.data@, self.shape@, self.strides@)
    }
}

/// A multi-dimensional view over flat storage, together with its unique
/// identity and its recording state.
pub struct Tensor<E> {
    pub id: u64,
    pub data: Vec<E>,
    pub shape: Vec<usize>,
    pub strides: Vec<usize>,
    pub tape: Tape<E>,
}

impl<E: Scalar> Tensor<E> {
    /// The view itself is valid: the shape is accepted and every position it
    /// describes addresses inside the storage.
    pub open spec fn core_wf(self) -> bool {
        &&& shape_ok(self.shape@)
        &&& self.strides@.len() == self.shape@.len()
        &&& addr_ok(self.shape@, self.strides@, 0, self.data@.len() as int)
    }

    pub open spec fn wf(self) -> bool {
        &&& self.core_wf()
        &&& self.tape.wf()
    }

    /// The logical elements seen through the view, in row-major order.
    pub open spec fn elems(self) -> Seq<E> {
        logical(self.data@, self.shape@, self.strides@)
    }

    pub open spec fn is_traced(self) -> bool {
        self.tape is Traced
    }

    /// Captures a tape-free copy for a backward step: same identity, same
    /// storage, same view.
    pub fn snap(&self) -> (s: Snap<E>)
        ensures
            s.id == self.id,
            s.data@ == self.data@,
            s.shape@ == self.shape@,
            s.strides@ == self.strides@,
    {
        Snap {
            id: self.id,
            data: copy_vec(&self.data),
            shape: copy_usizes(&self.shape),
            strides: copy_usizes(&self.strides),
        }
    }

    /// The logical elements, gathered into a fresh contiguous buffer.
    pub fn as_vec(&self) -> (r: Vec<E>)
        requires
            self.core_wf(),
        ensures
            r@ == self.elems(),
            r@.len() == numel(self.shape@),
    {
        materialize(&self.data, &self.shape, &self.strides)
    }

    /// Detaches the recording state.
    pub fn split_tape(self) -> (r: (Tensor<E>, Tape<E>))
        ensures
            r.0.id == self.id,
            r.0.data@ == self.data@,
            r.0.shape@ == self.shape@,
            r.0.strides@ == self.strides@,
            r.0.tape is Untraced,
            r.1 == self.tape,
    {
        let Tensor { id, data, shape, strides, tape } = self;
        (Tensor { id, data, shape, strides, tape: Tape::Untraced }, tape)
    }

    /// Attaches a recording state.
    pub fn put_tape(self, t: Tape<E>) -> (r: Tensor<E>)
        ensures
            r.id == self.id,
            r.data@ == self.data@,
            r.shape@ == self.shape@,
            r.strides@ == self.strides@,
            r.tape == t,
    {
        let Tensor { id, data, shape, strides, tape: _ } = self;
        Tensor { id, data, shape, strides, tape: t }
    }

    /// Starts recording: a copy of this tensor, same identity, carrying a
    /// fresh empty tape.
    pub fn trace(&self) -> (r: Tensor<E>)
        ensures
            r.id == self.id,
            r.data@ == self.data@,
            r.shape@ == self.shape@,
            r.strides@ == self.strides@,
            r.tape is Traced,
            r.tape->0.ops@.len() == 0,
            r.tape->0.grads.gmap() == Map::<u64, Seq<E>>::empty(),
            r.tape->0.wf(),
    {
        Tensor {
            id: self.id,
            data: copy_vec(&self.data),
            shape: copy_usizes(&self.shape),
            strides: copy_usizes(&self.strides),
            tape: Tape::Traced(OwnedTape::new_empty()),
        }
    }

    /// A copy of this tensor, same identity, with no recording state.
    pub fn retaped(&self) -> (r: Tensor<E>)
        ensures
            r.id == self.id,
            r.data@ == self.data@,
            r.shape@ == self.shape@,
            r.strides@ == self.strides@,
            r.tape is Untraced,
    {
        Tensor {
            id: self.id,
            data: copy_vec(&self.data),
            shape: copy_usizes(&self.shape),
            strides: copy_usizes(&self.strides),
            tape: Tape::Untraced,
        }
    }

    /// A copy of this tensor, same identity, carrying an empty tape of the
    /// same kind as its own: recording stays recording, detached stays
    /// detached.
    pub fn with_empty_tape(&self) -> (r: Tensor<E>)
        ensures
            r.id == self.id,
            r.data@ == self.data@,
            r.shape@ == self.shape@,
            r.strides@ == self.strides@,
            self.is_traced() ==> r.tape is Traced && r.tape->0.ops@.len() == 0
                && r.tape->0.grads.gmap() == Map::<u64, Seq<E>>::empty() && r.tape->0.wf(),
            !self.is_traced() ==> r.tape is Untraced,
    {
        if matches!(&self.tape, Tape::Traced(_)) {
            self.trace()
        } else {
            self.retaped()
        }
    }
}

/// The host backend: it owns the identity counter that stamps every tensor,
/// and the random generator behind sampling.
pub struct Cpu {
    pub next_id: u64,
    pub rng: rand::rngs::StdRng,
}

impl Cpu {
    /// A host device whose generator is seeded deterministically.
    pub fn seed_from_u64(seed: u64) -> (r: Cpu)
        ensures
            r.next_id == 0,
    {
        Cpu { next_id: 0, rng: rng_from_seed(seed) }
    }

    /// Stamps out the next identity.
    pub fn fresh_id(&mut self) -> (r: u64)
        requires
            old(self).next_id < u64::MAX,
        ensures
            r == old(self).next_id,
            final(self).next_id == old(self).next_id + 1,
            final(self).rng == old(self).rng,
    {
        let r = self.next_id;
        self.next_id = self.next_id + 1;
        r
    }

    /// Builds a tensor over the given flat buffer; the buffer must hold one
    /// element per logical position of the shape, else the offer is refused.
    pub fn try_tensor_from_vec<E: Scalar>(&mut self, src: Vec<E>, shape: Vec<usize>) -> (r:
        Result<Tensor<E>, CpuError>)
        requires
            shape_ok(shape@),
            old(self).next_id < u64::MAX,
        ensures
            src@.len() == numel(shape@) ==> r is Ok,
            src@.len() != numel(shape@) ==> r == Result::<Tensor<E>, CpuError>::Err(
                CpuError::WrongNumElements,
            ) && *final(self) == *old(self),
            r matches Ok(t) ==> {
                &&& t.wf()
                &&& t.id == old(self).next_id
                &&& final(self).next_id == old(self).next_id + 1
                &&& final(self).rng == old(self).rng
                &&& t.data@ == src@
                &&& t.shape@ == shape@
                &&& t.strides@ == cstrides(shape@)
                &&& t.tape is Untraced
            },
    {
        let n = numel_of(&shape);
        if src.len() != n {
            return Err(CpuError::WrongNumElements);
        }
        let strides = strides_of(&shape);
        proof {
            if numel(shape@) >= 1 {
                lemma_addr_ok_contiguous(shape@, cstrides(shape@), 0, src@.len() as int);
            } else {
                lemma_numel_zero(shape@);
                lemma_addr_ok_zero_extent(shape@, cstrides(shape@), 0, src@.len() as int);
            }
        }
        let id = self.fresh_id();
        Ok(Tensor { id, data: src, shape, strides, tape: Tape::Untraced })
    }

    /// Builds a tensor over the given flat buffer. The buffer must hold one
    /// element per logical position of the shape.
    pub fn tensor_from_vec<E: Scalar>(&mut self, src: Vec<E>, shape: Vec<usize>) -> (t: Tensor<
        E,
    >)
        requires
            shape_ok(shape@),
            old(self).next_id < u64::MAX,
            src@.len() == numel(shape@),
        ensures
            t.wf(),
            t.id == old(self).next_id,
            final(self).next_id == old(self).next_id + 1,
            final(self).rng == old(self).rng,
            t.data@ == src@,
            t.shape@ == shape@,
            t.strides@ == cstrides(shape@),
            t.tape is Untraced,
    {
        self.try_tensor_from_vec(src, shape).unwrap()
    }

    /// A contiguous all-zero tensor of the given shape.
    pub fn try_zeros_like<E: Scalar>(&mut self, shape: &Vec<usize>) -> (r: Result<Tensor<E>,
        CpuError>)
        requires
            shape_ok(shape@),
            old(self).next_id < u64::MAX,
        ensures
            r matches Ok(t) ==> {
                &&& t.wf()
                &&& t.id == old(self).next_id
                &&& final(self).next_id == old(self).next_id + 1
                &&& final(self).rng == old(self).rng
                &&& t.data@ == zero_seq::<E>(numel(shape@))
                &&& t.shape@ == shape@
                &&& t.strides@ == cstrides(shape@)
                &&& t.tape is Untraced
            },
            r is Ok,
    {
        let n = numel_of(shape);
        let data = zeros_vec::<E>(n);
        let sh = copy_usizes(shape);
        self.try_tensor_from_vec(data, sh)
    }

    /// A contiguous all-one tensor of the given shape.
    pub fn try_ones_like<E: Scalar>(&mut self, shape: &Vec<usize>) -> (r: Result<Tensor<E>,
        CpuError>)
        requires
            shape_ok(shape@),
            old(self).next_id < u64::MAX,
        ensures
            r matches Ok(t) ==> {
                &&& t.wf()
                &&& t.id == old(self).next_id
                &&& final(self).next_id == old(self).next_id + 1
                &&& final(self).rng == old(self).rng
                &&& t.data@ == one_seq::<E>(numel(shape@))
                &&& t.shape@ == shape@
                &&& t.strides@ == cstrides(shape@)
                &&& t.tape is Untraced
            },
            r is Ok,
    {
        let n = numel_of(shape);
        let data = ones_vec::<E>(n);
        let sh = copy_usizes(shape);
        self.try_tensor_from_vec(data, sh)
    }

    /// A contiguous tensor of the given shape whose elements are drawn one
    /// after the other from the element type's standard normal sampler.
    /// Which values come out depends on the generator's state; the shape,
    /// the identity, and the element count do not.
    pub fn sample_normal_like<E: Scalar>(&mut self, shape: &Vec<usize>) -> (t: Tensor<E>)
        requires
            shape_ok(shape@),
            old(self).next_id < u64::MAX,
        ensures
            t.wf(),
            t.id == old(self).next_id,
            final(self).next_id == old(self).next_id + 1,
            t.data@.len() == numel(shape@),
            t.shape@ == shape@,
            t.strides@ == cstrides(shape@),
            t.tape is Untraced,
    {
        let n = numel_of(shape);
        let mut data: Vec<E> = Vec::new();
        let mut i: usize = 0;
        while i < n
            invariant
                i <= n,
                data@.len() == i,
                self.next_id == old(self).next_id,
            decreases n - i,
        {
            let x = E::standard_normal(&mut self.rng);
            data.push(x);
            i = i + 1;
        }
        let sh = copy_usizes(shape);
        self.try_tensor_from_vec(data, sh).unwrap()
    }
}

impl Default for Cpu {
    /// A host device seeded with zero.
    fn default() -> (r: Cpu)
        ensures
            r.next_id == 0,
    {
        Cpu::seed_from_u64(0)
    }
}

} // verus!
