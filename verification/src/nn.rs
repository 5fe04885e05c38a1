use vstd::prelude::*;
use crate::kernels::{zip_bin, BinKind};
use crate::scalar::Scalar;
use crate::shapes::{numel, numel_of};
use crate::tensor::{Cpu, CpuError, Tensor};

verus! {

/// A unit a network is built from: it maps a tensor to one of the same
/// shape holding `fwd_vals` of its elements, stamping at most `fwd_ids`
/// fresh identities on the way. This is the shape-preserving interface that
/// residual wrapping needs; callers bring their own implementations.
pub trait Module<E: Scalar>: Sized {
    /// How many identities one forward pass may stamp. The default allows
    /// none; implementations state their own allowance.
    open spec fn fwd_ids(self) -> nat {
        0
    }

    /// The elements a forward pass leaves in its output, as a function of
    /// the input's elements. The default names the identity map;
    /// implementations state their own.
    open spec fn fwd_vals(self, x: Seq<E>) -> Seq<E> {
        x
    }

    /// Applies the module.
    fn try_forward(&self, x: Tensor<E>, dev: &mut Cpu) -> (r: Result<Tensor<E>, CpuError>)
        requires
            x.wf(),
            x.id < old(dev).next_id,
            old(dev).next_id + self.fwd_ids() <= u64::MAX,
        ensures
            final(dev).next_id >= old(dev).next_id,
            final(dev).next_id <= old(dev).next_id + self.fwd_ids(),
            r matches Ok(out) ==> out.wf() && out.id < final(dev).next_id && out.shape@
                == x.shape@ && out.elems() == self.fwd_vals(x.elems()),
    ;

    /// Applies the module, allowing it to update internal state.
    fn try_forward_mut(&mut self, x: Tensor<E>, dev: &mut Cpu) -> (r: Result<Tensor<E>,
        CpuError>)
        requires
            x.wf(),
            x.id < old(dev).next_id,
            old(dev).next_id + old(self).fwd_ids() <= u64::MAX,
        ensures
            final(dev).next_id >= old(dev).next_id,
            final(dev).next_id <= old(dev).next_id + old(self).fwd_ids(),
            r matches Ok(out) ==> out.wf() && out.id < final(dev).next_id && out.shape@
                == x.shape@ && out.elems() == (*old(self)).fwd_vals(x.elems()),
    ;
}

/// A residual connection around `F`: the module's output plus its input,
/// element for element. The inner module sees the input under an empty tape
/// of the input's kind; the closing addition merges the inner recording
/// back with the input's own.
pub struct Residual<F>(pub F);

impl<E: Scalar, F: Module<E>> Module<E> for Residual<F> {
    open spec fn fwd_ids(self) -> nat {
        self.0.fwd_ids() + 1
    }

    open spec fn fwd_vals(self, x: Seq<E>) -> Seq<E> {
        zip_bin(BinKind::AddB, self.0.fwd_vals(x), x)
    }

    fn try_forward(&self, x: Tensor<E>, dev: &mut Cpu) -> (r: Result<Tensor<E>, CpuError>) {
        let xc = x.with_empty_tape();
        proof {
            assert(xc.elems() == x.elems());
        }
        let y = self.0.try_forward(xc, dev)?;
        let r = y.try_add(x, dev);
        proof {
            match &r {
                Ok(out) => {
                    crate::grid::lemma_logical_contiguous(out.data@, out.shape@);
                },
                Err(_) => {},
            }
        }
        r
    }

    fn try_forward_mut(&mut self, x: Tensor<E>, dev: &mut Cpu) -> (r: Result<Tensor<E>,
        CpuError>) {
        let xc = x.with_empty_tape();
        proof {
            assert(xc.elems() == x.elems());
        }
        let y = self.0.try_forward_mut(xc, dev)?;
        let r = y.try_add(x, dev);
        proof {
            match &r {
                Ok(out) => {
                    crate::grid::lemma_logical_contiguous(out.data@, out.shape@);
                },
                Err(_) => {},
            }
        }
        r
    }
}

/// Per-slot options a parameter holder reports while it is walked.
#[derive(Clone, Copy)]
pub struct TensorOptions {
    /// Whether the slot takes part in gradient updates; counts and updates
    /// respect it.
    pub do_gradient_update: bool,
}

/// A visitor over the parameters of a holder. What one call does to the
/// visitor is pinned by its own `vstep`, so a holder's walk can state what
/// the visitor saw.
pub trait TensorVisitor<E: Scalar>: Sized {
    /// What one visit does to the visitor, given the slot's trainability
    /// and shape. The default constrains nothing; implementations state
    /// their own step.
    open spec fn vstep(self, post: Self, train: bool, shape: Seq<usize>) -> bool {
        true
    }

    /// Whether this visitor never refuses a slot. The default promises
    /// nothing; a visitor that always succeeds states it, and walks then
    /// owe it a completed pass.
    open spec fn infallible(self) -> bool {
        false
    }

    /// Called once for each parameter slot.
    fn visit(&mut self, name: &str, opts: TensorOptions, t: &Tensor<E>) -> (r: Result<(),
        CpuError>)
        requires
            t.core_wf(),
        ensures
            (*old(self)).vstep(*final(self), opts.do_gradient_update, t.shape@),
            (*old(self)).infallible() ==> r is Ok && (*final(self)).infallible(),
    ;
}

/// The visitor's states chained through the listed slots, in order: each
/// slot advances it by one of its own steps.
pub open spec fn visits_all<E: Scalar, V: TensorVisitor<E>>(
    v0: V,
    v1: V,
    slots: Seq<(bool, Seq<usize>)>,
) -> bool
    decreases slots.len(),
{
    if slots.len() == 0 {
        v1 == v0
    } else {
        exists|mid: V|
            #[trigger] v0.vstep(mid, slots[0].0, slots[0].1) && visits_all(
                mid,
                v1,
                slots.skip(1),
            )
    }
}

/// A holder of parameters that a visitor can walk.
pub trait TensorCollection<E: Scalar>: Sized {
    /// The parameter slots the walk hands out, in walk order: each with its
    /// trainability and its shape. The default lists none; implementations
    /// state their own slots.
    open spec fn slots(self) -> Seq<(bool, Seq<usize>)> {
        Seq::empty()
    }

    /// Walks every parameter slot, handing each to the visitor. A visitor
    /// that never refuses a slot is owed a completed pass; a refused pass
    /// still chains the visitor through a prefix of the slots.
    fn iter_tensors<V: TensorVisitor<E>>(&self, visitor: &mut V) -> (r: Result<(), CpuError>)
        ensures
            (*old(visitor)).infallible() ==> r is Ok,
            r is Ok ==> visits_all(*old(visitor), *final(visitor), self.slots()),
            r is Err ==> exists|i: int|
                0 <= i <= self.slots().len() && visits_all(
                    *old(visitor),
                    *final(visitor),
                    #[trigger] self.slots().take(i),
                ),
    ;
}

impl<E: Scalar, F: TensorCollection<E>> TensorCollection<E> for Residual<F> {
    open spec fn slots(self) -> Seq<(bool, Seq<usize>)> {
        self.0.slots()
    }

    fn iter_tensors<V: TensorVisitor<E>>(&self, visitor: &mut V) -> (r: Result<(), CpuError>) {
        let r = self.0.iter_tensors(visitor);
        proof {
            if r is Err {
                let i = choose|i: int|
                    0 <= i <= self.0.slots().len() && visits_all::<E, V>(
                        *old(visitor),
                        *visitor,
                        #[trigger] self.0.slots().take(i),
                    );
                assert(visits_all::<E, V>(*old(visitor), *visitor, self.slots().take(i)));
            }
        }
        r
    }
}

/// Adding a slot's element count, stopping at the top of `usize`.
pub open spec fn sat_add(a: usize, b: nat) -> usize {
    if a + b <= usize::MAX {
        (a + b) as usize
    } else {
        usize::MAX
    }
}

/// The running parameter count after the listed slots, started from `c`:
/// each trainable slot adds its element count, saturating; the rest add
/// nothing.
pub open spec fn counted_from(c: usize, slots: Seq<(bool, Seq<usize>)>) -> usize
    decreases slots.len(),
{
    if slots.len() == 0 {
        c
    } else {
        counted_from(
            if slots[0].0 {
                sat_add(c, numel(slots[0].1))
            } else {
                c
            },
            slots.skip(1),
        )
    }
}

struct Counter {
    count: usize,
}

impl<E: Scalar> TensorVisitor<E> for Counter {
    closed spec fn vstep(self, post: Counter, train: bool, shape: Seq<usize>) -> bool {
        post.count == if train {
            sat_add(self.count, numel(shape))
        } else {
            self.count
        }
    }

    closed spec fn infallible(self) -> bool {
        true
    }

    fn visit(&mut self, name: &str, opts: TensorOptions, t: &Tensor<E>) -> (r: Result<(),
        CpuError>) {
        if opts.do_gradient_update {
            let n = numel_of(&t.shape);
            self.count = match self.count.checked_add(n) {
                Some(v) => v,
                None => usize::MAX,
            };
        }
        Ok(())
    }
}

/// A chained counting pass computes exactly the running count.
proof fn lemma_counter_chain<E: Scalar>(v0: Counter, v1: Counter, slots: Seq<(bool, Seq<usize>)>)
    requires
        visits_all::<E, Counter>(v0, v1, slots),
    ensures
        v1.count == counted_from(v0.count, slots),
    decreases slots.len(),
{
    if slots.len() > 0 {
        let mid = choose|mid: Counter|
            #[trigger] <Counter as TensorVisitor<E>>::vstep(v0, mid, slots[0].0, slots[0].1)
                && visits_all::<E, Counter>(mid, v1, slots.skip(1));
        lemma_counter_chain::<E>(mid, v1, slots.skip(1));
    }
}

/// The number of trainable parameters a holder reports: the element counts
/// of the walked slots that take gradient updates, summed in walk order and
/// saturating at the top of `usize`.
pub trait NumParams<E: Scalar>: TensorCollection<E> {
    fn num_trainable_params(&self) -> (r: usize)
        ensures
            r == counted_from(0, self.slots()),
    ;
}

impl<E: Scalar, M: TensorCollection<E>> NumParams<E> for M {
    fn num_trainable_params(&self) -> (r: usize) {
        let mut c = Counter { count: 0 };
        let _res = self.iter_tensors(&mut c);
        proof {
            assert(_res is Ok);
            lemma_counter_chain::<E>(Counter { count: 0 }, c, self.slots());
        }
        c.count
    }
}

} // verus!
