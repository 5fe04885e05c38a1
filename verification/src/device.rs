use vstd::prelude::*;
use crate::kernels::{reduce_bwd_spec, reduce_bwd_vec, reduce_fwd, reduce_fwd_vec, slab_add,
    slab_add_vec, RedKind};
use crate::ops::{stack_post, stack_pre, TryStack};
use crate::scalar::Scalar;
use crate::shapes::{addr_ok, axes_ok, numel, reduced, shape_ok};
use crate::tensor::{Cpu, CpuError, Tensor};

verus! {

/// The sum-reduction capability of a backend: the forward fold over a
/// gathered input, and the backward fold of an output gradient into a
/// physical input gradient buffer. Any backend offering this pair can serve
/// the sum reduction.
pub trait SumKernel<E: Scalar> {
    /// Folds the listed axes of the gathered input by addition.
    fn forward(&self, v: &Vec<E>, shape: &Vec<usize>, axes: &Vec<usize>) -> (r: Vec<E>)
        requires
            shape_ok(shape@),
            axes_ok(axes@, shape@.len() as nat),
            shape_ok(reduced(shape@, axes@)),
            v@.len() == numel(shape@),
        ensures
            r@ == reduce_fwd(RedKind::SumRed, v@, shape@, axes@),
            r@.len() == numel(reduced(shape@, axes@)),
    ;

    /// Folds the output gradient, broadcast across the reduced axes, into
    /// the input's physical gradient buffer.
    fn backward(
        &self,
        data: &Vec<E>,
        shape: &Vec<usize>,
        strides: &Vec<usize>,
        axes: &Vec<usize>,
        outdata: &Vec<E>,
        gin: Vec<E>,
        gout: &Vec<E>,
    ) -> (r: Vec<E>)
        requires
            shape_ok(shape@),
            strides@.len() == shape@.len(),
            addr_ok(shape@, strides@, 0, data@.len() as int),
            axes_ok(axes@, shape@.len() as nat),
            shape_ok(reduced(shape@, axes@)),
            gin@.len() == data@.len(),
            outdata@.len() == numel(reduced(shape@, axes@)),
            gout@.len() == numel(reduced(shape@, axes@)),
        ensures
            r@ == reduce_bwd_spec(
                RedKind::SumRed,
                data@,
                shape@,
                strides@,
                axes@,
                outdata@,
                gin@,
                gout@,
            ),
            r@.len() == gin@.len(),
    ;
}

impl<E: Scalar> SumKernel<E> for Cpu {
    fn forward(&self, v: &Vec<E>, shape: &Vec<usize>, axes: &Vec<usize>) -> (r: Vec<E>) {
        reduce_fwd_vec(RedKind::SumRed, v, shape, axes)
    }

    fn backward(
        &self,
        data: &Vec<E>,
        shape: &Vec<usize>,
        strides: &Vec<usize>,
        axes: &Vec<usize>,
        outdata: &Vec<E>,
        gin: Vec<E>,
        gout: &Vec<E>,
    ) -> (r: Vec<E>) {
        reduce_bwd_vec(RedKind::SumRed, data, shape, strides, axes, outdata, gin, gout)
    }
}

/// The max-reduction capability of a backend: as the sum family, but the
/// forward keeps each slice's largest element and the backward hands the
/// output gradient to every position that numerically equals it. No output
/// slot may face an empty slice.
pub trait MaxReduceKernel<E: Scalar> {
    /// Folds the listed axes of the gathered input by the larger element.
    fn forward(&self, v: &Vec<E>, shape: &Vec<usize>, axes: &Vec<usize>) -> (r: Vec<E>)
        requires
            shape_ok(shape@),
            axes_ok(axes@, shape@.len() as nat),
            shape_ok(reduced(shape@, axes@)),
            v@.len() == numel(shape@),
            numel(shape@) == 0 ==> numel(reduced(shape@, axes@)) == 0,
        ensures
            r@ == reduce_fwd(RedKind::MaxRed, v@, shape@, axes@),
            r@.len() == numel(reduced(shape@, axes@)),
    ;

    /// Hands the output gradient back to the attaining positions.
    fn backward(
        &self,
        data: &Vec<E>,
        shape: &Vec<usize>,
        strides: &Vec<usize>,
        axes: &Vec<usize>,
        outdata: &Vec<E>,
        gin: Vec<E>,
        gout: &Vec<E>,
    ) -> (r: Vec<E>)
        requires
            shape_ok(shape@),
            strides@.len() == shape@.len(),
            addr_ok(shape@, strides@, 0, data@.len() as int),
            axes_ok(axes@, shape@.len() as nat),
            shape_ok(reduced(shape@, axes@)),
            gin@.len() == data@.len(),
            outdata@.len() == numel(reduced(shape@, axes@)),
            gout@.len() == numel(reduced(shape@, axes@)),
        ensures
            r@ == reduce_bwd_spec(
                RedKind::MaxRed,
                data@,
                shape@,
                strides@,
                axes@,
                outdata@,
                gin@,
                gout@,
            ),
            r@.len() == gin@.len(),
    ;
}

impl<E: Scalar> MaxReduceKernel<E> for Cpu {
    fn forward(&self, v: &Vec<E>, shape: &Vec<usize>, axes: &Vec<usize>) -> (r: Vec<E>) {
        reduce_fwd_vec(RedKind::MaxRed, v, shape, axes)
    }

    fn backward(
        &self,
        data: &Vec<E>,
        shape: &Vec<usize>,
        strides: &Vec<usize>,
        axes: &Vec<usize>,
        outdata: &Vec<E>,
        gin: Vec<E>,
        gout: &Vec<E>,
    ) -> (r: Vec<E>) {
        reduce_bwd_vec(RedKind::MaxRed, data, shape, strides, axes, outdata, gin, gout)
    }
}

/// The min-reduction capability of a backend, the mirror of
/// `MaxReduceKernel`.
pub trait MinReduceKernel<E: Scalar> {
    /// Folds the listed axes of the gathered input by the smaller element.
    fn forward(&self, v: &Vec<E>, shape: &Vec<usize>, axes: &Vec<usize>) -> (r: Vec<E>)
        requires
            shape_ok(shape@),
            axes_ok(axes@, shape@.len() as nat),
            shape_ok(reduced(shape@, axes@)),
            v@.len() == numel(shape@),
            numel(shape@) == 0 ==> numel(reduced(shape@, axes@)) == 0,
        ensures
            r@ == reduce_fwd(RedKind::MinRed, v@, shape@, axes@),
            r@.len() == numel(reduced(shape@, axes@)),
    ;

    /// Hands the output gradient back to the attaining positions.
    fn backward(
        &self,
        data: &Vec<E>,
        shape: &Vec<usize>,
        strides: &Vec<usize>,
        axes: &Vec<usize>,
        outdata: &Vec<E>,
        gin: Vec<E>,
        gout: &Vec<E>,
    ) -> (r: Vec<E>)
        requires
            shape_ok(shape@),
            strides@.len() == shape@.len(),
            addr_ok(shape@, strides@, 0, data@.len() as int),
            axes_ok(axes@, shape@.len() as nat),
            shape_ok(reduced(shape@, axes@)),
            gin@.len() == data@.len(),
            outdata@.len() == numel(reduced(shape@, axes@)),
            gout@.len() == numel(reduced(shape@, axes@)),
        ensures
            r@ == reduce_bwd_spec(
                RedKind::MinRed,
                data@,
                shape@,
                strides@,
                axes@,
                outdata@,
                gin@,
                gout@,
            ),
            r@.len() == gin@.len(),
    ;
}

impl<E: Scalar> MinReduceKernel<E> for Cpu {
    fn forward(&self, v: &Vec<E>, shape: &Vec<usize>, axes: &Vec<usize>) -> (r: Vec<E>) {
        reduce_fwd_vec(RedKind::MinRed, v, shape, axes)
    }

    fn backward(
        &self,
        data: &Vec<E>,
        shape: &Vec<usize>,
        strides: &Vec<usize>,
        axes: &Vec<usize>,
        outdata: &Vec<E>,
        gin: Vec<E>,
        gout: &Vec<E>,
    ) -> (r: Vec<E>)
    {
        reduce_bwd_vec(RedKind::MinRed, data, shape, strides, axes, outdata, gin, gout)
    }
}

/// The stacking capability of a backend: the forward concatenation along a
/// new leading axis, and the backward fold of one output-gradient slab into
/// one input's gradient buffer.
pub trait StackKernel<E: Scalar>: Sized {
    /// What the concatenation asks of its inputs: see the implementation.
    spec fn stack_fwd_pre(self, items: Seq<Tensor<E>>) -> bool;

    /// What the concatenation delivers: see the implementation.
    spec fn stack_fwd_post(self, post: Self, items: Seq<Tensor<E>>, out: Tensor<E>) -> bool;

    /// Concatenates the inputs' physical buffers along a new leading axis.
    fn forward(&mut self, items: Vec<Tensor<E>>) -> (r: Result<Tensor<E>, CpuError>)
        requires
            old(self).stack_fwd_pre(items@),
        ensures
            r is Ok,
            r matches Ok(out) ==> old(self).stack_fwd_post(*final(self), items@, out),
    ;

    /// Folds the output-gradient slab starting at `off` into one input's
    /// gradient buffer.
    fn backward(&self, gi: &Vec<E>, gout: &Vec<E>, off: usize) -> (r: Vec<E>)
        requires
            off + gi@.len() <= gout@.len(),
        ensures
            r@ == slab_add(gi@, gout@, off as int),
    ;
}

impl<E: Scalar> StackKernel<E> for Cpu {
    open spec fn stack_fwd_pre(self, items: Seq<Tensor<E>>) -> bool {
        stack_pre(items, self)
    }

    open spec fn stack_fwd_post(self, post: Cpu, items: Seq<Tensor<E>>, out: Tensor<E>) -> bool {
        stack_post(items, self, post, out)
    }

    fn forward(&mut self, items: Vec<Tensor<E>>) -> (r: Result<Tensor<E>, CpuError>) {
        self.try_stack(items)
    }

    fn backward(&self, gi: &Vec<E>, gout: &Vec<E>, off: usize) -> (r: Vec<E>) {
        slab_add_vec(gi, gout, off)
    }
}

/// The capability surface a backend offers the operation layer: every
/// kernel family the public operations dispatch to. A new backend becomes
/// usable by implementing this set.
pub trait Device<E: Scalar>: SumKernel<E> + MaxReduceKernel<E> + MinReduceKernel<E>
    + StackKernel<E> + TryStack<E> {
}

impl<E: Scalar> Device<E> for Cpu {
}

} // verus!
