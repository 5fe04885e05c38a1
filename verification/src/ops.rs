use vstd::prelude::*;
use crate::grid::{copy_usizes, one_seq, ones_vec};
use crate::kernels::{bin_fwd_vec, map_un, reduce_fwd, reduce_fwd_vec, un_fwd_vec, un_wf,
    zip_bin, BinKind, RedKind, UnKind};
use crate::scalar::Scalar;
use crate::shapes::{addr_ok, axes_ok, cstrides, numel, numel_of, reduced, shape_ok};
use crate::tape::{fix_one, op_wf, replay, run_step, BackwardOp, Gradients, OwnedTape, Tape};
use crate::tensor::{Cpu, CpuError, Tensor};

verus! {

/// How an operation with one differentiable input threads the recording
/// state from its input to its output: a detached input gives a detached
/// output; a recording input hands its tape on with one more step and with
/// gradient buffers registered for the input (`id1`, physical length `l1`)
/// and the output (`id2`, length `l2`).
pub open spec fn threads_two<E: Scalar>(
    t0: Tape<E>,
    t1: Tape<E>,
    id1: u64,
    l1: nat,
    id2: u64,
    l2: nat,
) -> bool {
    match t0 {
        Tape::Untraced => t1 is Untraced,
        Tape::Traced(ot) => {
            &&& t1 is Traced
            &&& t1->0.ops@.len() == ot.ops@.len() + 1
            &&& t1->0.ops@.drop_last() == ot.ops@
            &&& t1->0.grads.gmap() == fix_one(fix_one(ot.grads.gmap(), id1, l1), id2, l2)
            &&& t1->0.wf()
        },
    }
}

/// The last recorded step of a recording tape.
pub open spec fn last_op<E: Scalar>(t: Tape<E>) -> BackwardOp<E>
    recommends
        t is Traced,
{
    t->0.ops@.last()
}

impl<E: Scalar> Tensor<E> {
    /// Reduces over the listed axes with the given fold. The output is a
    /// fresh contiguous tensor of the reduced shape; one backward step is
    /// recorded.
    pub fn try_reduce(self, dev: &mut Cpu, axes: &Vec<usize>, kind: RedKind) -> (r: Result<
        Tensor<E>,
        CpuError,
    >)
        requires
            self.wf(),
            axes_ok(axes@, self.shape@.len() as nat),
            shape_ok(reduced(self.shape@, axes@)),
            self.id < old(dev).next_id,
            old(dev).next_id < u64::MAX,
            !(kind is SumRed) ==> (numel(self.shape@) == 0 ==> numel(
                reduced(self.shape@, axes@),
            ) == 0),
        ensures
            r is Ok,
            r matches Ok(out) ==> {
                &&& out.wf()
                &&& out.id == old(dev).next_id
                &&& final(dev).next_id == old(dev).next_id + 1
                &&& final(dev).rng == old(dev).rng
                &&& out.shape@ == reduced(self.shape@, axes@)
                &&& out.strides@ == cstrides(out.shape@)
                &&& out.data@ == reduce_fwd(kind, self.elems(), self.shape@, axes@)
                &&& out.data@.len() == numel(out.shape@)
                &&& threads_two(
                    self.tape,
                    out.tape,
                    self.id,
                    self.data@.len(),
                    out.id,
                    numel(out.shape@),
                )
                &&& (self.tape is Traced ==> (last_op(out.tape) matches BackwardOp::Reduce {
                    kind: k2,
                    inp,
                    out: ou,
                    axes: a2,
                } && k2 == kind && inp.id == self.id && inp.data@ == self.data@ && inp.shape@
                    == self.shape@ && inp.strides@ == self.strides@ && ou.id == out.id
                    && ou.data@ == out.data@ && a2@ == axes@))
            },
    {
        let (inp, tape) = self.split_tape();
        let mut tape = tape;
        let v = inp.as_vec();
        let outdata = reduce_fwd_vec(kind, &v, &inp.shape, axes);
        let dshape = crate::shapes::reduced_shape(&inp.shape, axes);
        let out0: Tensor<E> = dev.tensor_from_vec(outdata, dshape);
        tape.alloc_for(inp.id, inp.data.len());
        tape.alloc_for(out0.id, out0.data.len());
        let op = BackwardOp::Reduce {
            kind,
            inp: inp.snap(),
            out: out0.snap(),
            axes: copy_usizes(axes),
        };
        proof {
            assert(op_wf(op));
        }
        tape.record(op);
        proof {
            if self.tape is Traced {
                assert(tape->0.ops@.drop_last() =~= self.tape->0.ops@);
            }
        }
        Ok(out0.put_tape(tape))
    }

    /// Applies an element-wise unary operation; the output is a fresh
    /// contiguous tensor over the input's logical elements.
    pub fn try_unary(self, dev: &mut Cpu, kind: UnKind<E>) -> (r: Result<Tensor<E>, CpuError>)
        requires
            self.wf(),
            un_wf(kind),
            self.id < old(dev).next_id,
            old(dev).next_id < u64::MAX,
        ensures
            r is Ok,
            r matches Ok(out) ==> {
                &&& out.wf()
                &&& out.id == old(dev).next_id
                &&& final(dev).next_id == old(dev).next_id + 1
                &&& final(dev).rng == old(dev).rng
                &&& out.shape@ == self.shape@
                &&& out.strides@ == cstrides(out.shape@)
                &&& out.data@ == map_un(kind, self.elems())
                &&& out.data@.len() == numel(out.shape@)
                &&& threads_two(
                    self.tape,
                    out.tape,
                    self.id,
                    self.data@.len(),
                    out.id,
                    numel(out.shape@),
                )
                &&& (self.tape is Traced ==> (last_op(out.tape) matches BackwardOp::Unary {
                    kind: k2,
                    inp,
                    out: ou,
                } && k2 == kind && inp.id == self.id && inp.data@ == self.data@ && inp.shape@
                    == self.shape@ && inp.strides@ == self.strides@ && ou.id == out.id
                    && ou.data@ == out.data@))
            },
    {
        let (inp, tape) = self.split_tape();
        let mut tape = tape;
        let v = inp.as_vec();
        let outdata = un_fwd_vec(kind, &v);
        let sh = copy_usizes(&inp.shape);
        let out0: Tensor<E> = dev.tensor_from_vec(outdata, sh);
        tape.alloc_for(inp.id, inp.data.len());
        tape.alloc_for(out0.id, out0.data.len());
        let op = BackwardOp::Unary { kind, inp: inp.snap(), out: out0.snap() };
        proof {
            assert(op_wf(op));
        }
        tape.record(op);
        proof {
            if self.tape is Traced {
                assert(tape->0.ops@.drop_last() =~= self.tape->0.ops@);
            }
        }
        Ok(out0.put_tape(tape))
    }

    /// `exp` of each element.
    pub fn try_exp(self, dev: &mut Cpu) -> (r: Result<Tensor<E>, CpuError>)
        requires
            self.wf(),
            self.id < old(dev).next_id,
            old(dev).next_id < u64::MAX,
        ensures
            r is Ok,
            r matches Ok(out) ==> {
                &&& out.wf()
                &&& out.id == old(dev).next_id
                &&& final(dev).next_id == old(dev).next_id + 1
                &&& out.shape@ == self.shape@
                &&& out.data@ == map_un(UnKind::<E>::ExpOp, self.elems())
                &&& threads_two(
                    self.tape,
                    out.tape,
                    self.id,
                    self.data@.len(),
                    out.id,
                    numel(out.shape@),
                )
            },
    {
        self.try_unary(dev, UnKind::ExpOp)
    }

    /// `exp` of each element.
    pub fn exp(self, dev: &mut Cpu) -> (out: Tensor<E>)
        requires
            self.wf(),
            self.id < old(dev).next_id,
            old(dev).next_id < u64::MAX,
        ensures
            out.wf(),
            out.id == old(dev).next_id,
            final(dev).next_id == old(dev).next_id + 1,
            out.shape@ == self.shape@,
            out.data@ == map_un(UnKind::<E>::ExpOp, self.elems()),
            threads_two(
                self.tape,
                out.tape,
                self.id,
                self.data@.len(),
                out.id,
                numel(out.shape@),
            ),
    {
        self.try_unary(dev, UnKind::ExpOp).unwrap()
    }

    /// Each element multiplied by a constant.
    pub fn mul_scalar(self, dev: &mut Cpu, c: E) -> (out: Tensor<E>)
        requires
            self.wf(),
            self.id < old(dev).next_id,
            old(dev).next_id < u64::MAX,
        ensures
            out.wf(),
            out.id == old(dev).next_id,
            final(dev).next_id == old(dev).next_id + 1,
            out.shape@ == self.shape@,
            out.data@ == map_un(UnKind::MulByOp(c), self.elems()),
            threads_two(
                self.tape,
                out.tape,
                self.id,
                self.data@.len(),
                out.id,
                numel(out.shape@),
            ),
    {
        self.try_unary(dev, UnKind::MulByOp(c)).unwrap()
    }

    /// The mean of all elements: the full sum divided by the element count.
    /// Two steps reach the tape: the reduction and the division.
    pub fn mean(self, dev: &mut Cpu) -> (out: Tensor<E>)
        requires
            self.wf(),
            numel(self.shape@) >= 1,
            self.id < old(dev).next_id,
            old(dev).next_id + 2 <= u64::MAX,
        ensures
            out.wf(),
            out.id == old(dev).next_id + 1,
            final(dev).next_id == old(dev).next_id + 2,
            out.shape@ == Seq::<usize>::empty(),
            out.data@ == map_un(
                UnKind::<E>::DivByNOp(numel(self.shape@) as usize),
                reduce_fwd(RedKind::SumRed, self.elems(), self.shape@, all_axes(self.shape@.len() as nat)),
            ),
            self.tape is Traced ==> out.tape is Traced && out.tape->0.ops@.len() == self.tape->0.ops@.len() + 2,
            self.tape is Untraced ==> out.tape is Untraced,
    {
        let rank = self.shape.len();
        let axes = axes_upto(rank);
        let n = numel_of(&self.shape);
        proof {
            assert forall|j: int| 0 <= j < self.shape@.len() implies ax_has_int(axes@, j) by {
                assert(axes@[j] == j as usize);
            }
            lemma_reduced_all(self.shape@, axes@);
            assert(shape_ok(Seq::<usize>::empty()));
        }
        let s = self.try_reduce(dev, &axes, RedKind::SumRed).unwrap();
        s.try_unary(dev, UnKind::DivByNOp(n)).unwrap()
    }
}

/// The backward steps a tape carries: none when detached.
pub open spec fn tape_ops<E: Scalar>(t: Tape<E>) -> Seq<BackwardOp<E>> {
    match t {
        Tape::Untraced => Seq::empty(),
        Tape::Traced(ot) => ot.ops@,
    }
}

/// The gradient map a tape carries: empty when detached.
pub open spec fn tape_gmap<E: Scalar>(t: Tape<E>) -> Map<u64, Seq<E>> {
    match t {
        Tape::Untraced => Map::empty(),
        Tape::Traced(ot) => ot.grads.gmap(),
    }
}

/// How a binary operation threads the recording state of its two operands
/// into its output: the tapes merge (left steps first, left buffers win),
/// buffers are registered for both operands and the output, and one step is
/// appended. Both operands detached leaves the output detached.
pub open spec fn threads_binary<E: Scalar>(
    ta: Tape<E>,
    tb: Tape<E>,
    t1: Tape<E>,
    ida: u64,
    la: nat,
    idb: u64,
    lb: nat,
    ido: u64,
    lo: nat,
) -> bool {
    if ta is Untraced && tb is Untraced {
        t1 is Untraced
    } else {
        &&& t1 is Traced
        &&& t1->0.wf()
        &&& t1->0.ops@.len() == tape_ops(ta).len() + tape_ops(tb).len() + 1
        &&& t1->0.ops@.drop_last() == tape_ops(ta) + tape_ops(tb)
        &&& t1->0.grads.gmap() == fix_one(
            fix_one(fix_one(merged_gmap(ta, tb), ida, la), idb, lb),
            ido,
            lo,
        )
    }
}

/// The gradient map after two tapes merge: the left map, with the right
/// side's entries folded in.
pub open spec fn merged_gmap<E: Scalar>(ta: Tape<E>, tb: Tape<E>) -> Map<u64, Seq<E>> {
    match ta {
        Tape::Untraced => tape_gmap(tb),
        Tape::Traced(ota) => match tb {
            Tape::Untraced => ota.grads.gmap(),
            Tape::Traced(otb) => crate::tape::merge_map(
                ota.grads.gmap(),
                otb.grads.ids@,
                otb.grads.bufs@,
                otb.grads.ids@.len(),
            ),
        },
    }
}

/// The descriptor of the element-wise maximum operation, as handed to the
/// binary operation runtime.
#[derive(Debug, Default, Clone, Copy)]
pub struct MaximumKernelOp;

impl MaximumKernelOp {
    /// Which binary fold this descriptor selects.
    pub fn kind(self) -> (k: BinKind)
        ensures
            k is MaximumB,
    {
        BinKind::MaximumB
    }
}

impl<E: Scalar> Tensor<E> {
    /// Applies an element-wise binary operation to two tensors of one
    /// shape. When both sides are one tensor (equal identities), the
    /// recorded step carries the left capture twice, and the backward path
    /// folds both contributions into the one gradient buffer.
    pub fn try_binary(self, rhs: Tensor<E>, dev: &mut Cpu, kind: BinKind) -> (r: Result<
        Tensor<E>,
        CpuError,
    >)
        requires
            self.wf(),
            rhs.wf(),
            self.shape@ == rhs.shape@,
            self.id < old(dev).next_id,
            rhs.id < old(dev).next_id,
            old(dev).next_id < u64::MAX,
        ensures
            r is Ok,
            r matches Ok(out) ==> {
                &&& out.wf()
                &&& out.id == old(dev).next_id
                &&& final(dev).next_id == old(dev).next_id + 1
                &&& final(dev).rng == old(dev).rng
                &&& out.shape@ == self.shape@
                &&& out.strides@ == cstrides(out.shape@)
                &&& out.data@ == zip_bin(kind, self.elems(), rhs.elems())
                &&& out.data@.len() == numel(out.shape@)
                &&& threads_binary(
                    self.tape,
                    rhs.tape,
                    out.tape,
                    self.id,
                    self.data@.len(),
                    rhs.id,
                    if self.id == rhs.id {
                        self.data@.len()
                    } else {
                        rhs.data@.len()
                    },
                    out.id,
                    numel(out.shape@),
                )
                &&& (!(self.tape is Untraced && rhs.tape is Untraced) ==> (last_op(out.tape)
                    matches BackwardOp::Binary { kind: k2, lhs, rhs: rr, out_id } && k2 == kind
                    && lhs.id == self.id && lhs.data@ == self.data@ && lhs.shape@ == self.shape@
                    && lhs.strides@ == self.strides@ && out_id == out.id && rr.id == rhs.id
                    && (self.id == rhs.id ==> rr.data@ == self.data@ && rr.strides@
                    == self.strides@) && (self.id != rhs.id ==> rr.data@ == rhs.data@
                    && rr.shape@ == rhs.shape@ && rr.strides@ == rhs.strides@)))
            },
    {
        let (a, ta) = self.split_tape();
        let (b, tb) = rhs.split_tape();
        let mut tape = ta.merge(tb);
        let va = a.as_vec();
        let vb = b.as_vec();
        let outdata = bin_fwd_vec(kind, &va, &vb);
        let sh = copy_usizes(&a.shape);
        let out0: Tensor<E> = dev.tensor_from_vec(outdata, sh);
        tape.alloc_for(a.id, a.data.len());
        let rsnap = if a.id == b.id {
            a.snap()
        } else {
            b.snap()
        };
        tape.alloc_for(rsnap.id, rsnap.data.len());
        tape.alloc_for(out0.id, out0.data.len());
        let op = BackwardOp::Binary { kind, lhs: a.snap(), rhs: rsnap, out_id: out0.id };
        proof {
            assert(op_wf(op));
        }
        tape.record(op);
        proof {
            if !(self.tape is Untraced && rhs.tape is Untraced) {
                assert(tape->0.ops@.drop_last() =~= tape_ops(self.tape) + tape_ops(rhs.tape));
            }
        }
        Ok(out0.put_tape(tape))
    }

    /// Element-wise maximum; on a numeric tie the backward pass hands each
    /// side half the gradient.
    pub fn try_maximum(self, rhs: Tensor<E>, dev: &mut Cpu) -> (r: Result<Tensor<E>, CpuError>)
        requires
            self.wf(),
            rhs.wf(),
            self.shape@ == rhs.shape@,
            self.id < old(dev).next_id,
            rhs.id < old(dev).next_id,
            old(dev).next_id < u64::MAX,
        ensures
            r is Ok,
            r matches Ok(out) ==> {
                &&& out.wf()
                &&& out.id == old(dev).next_id
                &&& final(dev).next_id == old(dev).next_id + 1
                &&& out.shape@ == self.shape@
                &&& out.data@ == zip_bin(BinKind::MaximumB, self.elems(), rhs.elems())
                &&& threads_binary(
                    self.tape,
                    rhs.tape,
                    out.tape,
                    self.id,
                    self.data@.len(),
                    rhs.id,
                    if self.id == rhs.id {
                        self.data@.len()
                    } else {
                        rhs.data@.len()
                    },
                    out.id,
                    numel(out.shape@),
                )
            },
    {
        self.try_binary(rhs, dev, MaximumKernelOp.kind())
    }

    /// Element-wise maximum.
    pub fn maximum(self, rhs: Tensor<E>, dev: &mut Cpu) -> (out: Tensor<E>)
        requires
            self.wf(),
            rhs.wf(),
            self.shape@ == rhs.shape@,
            self.id < old(dev).next_id,
            rhs.id < old(dev).next_id,
            old(dev).next_id < u64::MAX,
        ensures
            out.wf(),
            out.id == old(dev).next_id,
            final(dev).next_id == old(dev).next_id + 1,
            out.shape@ == self.shape@,
            out.data@ == zip_bin(BinKind::MaximumB, self.elems(), rhs.elems()),
    {
        self.try_maximum(rhs, dev).unwrap()
    }

    /// Element-wise minimum.
    pub fn try_minimum(self, rhs: Tensor<E>, dev: &mut Cpu) -> (r: Result<Tensor<E>, CpuError>)
        requires
            self.wf(),
            rhs.wf(),
            self.shape@ == rhs.shape@,
            self.id < old(dev).next_id,
            rhs.id < old(dev).next_id,
            old(dev).next_id < u64::MAX,
        ensures
            r is Ok,
            r matches Ok(out) ==> {
                &&& out.wf()
                &&& out.id == old(dev).next_id
                &&& final(dev).next_id == old(dev).next_id + 1
                &&& out.shape@ == self.shape@
                &&& out.data@ == zip_bin(BinKind::MinimumB, self.elems(), rhs.elems())
            },
    {
        self.try_binary(rhs, dev, BinKind::MinimumB)
    }

    /// Element-wise sum of two tensors of one shape.
    pub fn try_add(self, rhs: Tensor<E>, dev: &mut Cpu) -> (r: Result<Tensor<E>, CpuError>)
        requires
            self.wf(),
            rhs.wf(),
            self.shape@ == rhs.shape@,
            self.id < old(dev).next_id,
            rhs.id < old(dev).next_id,
            old(dev).next_id < u64::MAX,
        ensures
            r is Ok,
            r matches Ok(out) ==> {
                &&& out.wf()
                &&& out.id == old(dev).next_id
                &&& final(dev).next_id == old(dev).next_id + 1
                &&& out.shape@ == self.shape@
                &&& out.strides@ == cstrides(out.shape@)
                &&& out.data@ == zip_bin(BinKind::AddB, self.elems(), rhs.elems())
                &&& out.data@.len() == numel(out.shape@)
                &&& threads_binary(
                    self.tape,
                    rhs.tape,
                    out.tape,
                    self.id,
                    self.data@.len(),
                    rhs.id,
                    if self.id == rhs.id {
                        self.data@.len()
                    } else {
                        rhs.data@.len()
                    },
                    out.id,
                    numel(out.shape@),
                )
            },
    {
        self.try_binary(rhs, dev, BinKind::AddB)
    }

    /// Inserts stride-zero axes at the listed positions of the destination
    /// shape: a pure view, no element moves.
    pub fn try_broadcast(self, dev: &mut Cpu, dst_shape: &Vec<usize>, axes: &Vec<usize>) -> (r:
        Result<Tensor<E>, CpuError>)
        requires
            self.wf(),
            shape_ok(dst_shape@),
            axes_ok(axes@, dst_shape@.len() as nat),
            reduced(dst_shape@, axes@) == self.shape@,
            self.id < old(dev).next_id,
            old(dev).next_id < u64::MAX,
        ensures
            r is Ok,
            r matches Ok(out) ==> {
                &&& out.wf()
                &&& out.id == old(dev).next_id
                &&& final(dev).next_id == old(dev).next_id + 1
                &&& out.shape@ == dst_shape@
                &&& out.strides@ == crate::shapes::expanded(dst_shape@, axes@, self.strides@)
                &&& out.data@ == self.data@
                &&& threads_two(
                    self.tape,
                    out.tape,
                    self.id,
                    self.data@.len(),
                    out.id,
                    self.data@.len(),
                )
                &&& (self.tape is Traced ==> (last_op(out.tape) matches BackwardOp::ViewBack {
                    inp_id,
                    out_id,
                    len,
                } && inp_id == self.id && out_id == out.id && len == self.data@.len()))
            },
    {
        let (a, tape) = self.split_tape();
        let mut tape = tape;
        let data = crate::grid::copy_vec(&a.data);
        let strides = crate::shapes::expand_strides(dst_shape, axes, &a.strides);
        proof {
            crate::shapes::lemma_numel_zero(dst_shape@);
            if numel(dst_shape@) == 0 {
                crate::shapes::lemma_addr_ok_zero_extent(
                    dst_shape@,
                    strides@,
                    0,
                    data@.len() as int,
                );
            } else {
                assert forall|j: int| 0 <= j < dst_shape@.len() implies 1 <= #[trigger] dst_shape@[
                j] by {
                    if dst_shape@[j] == 0 {
                        assert(crate::shapes::has_zero_extent(dst_shape@));
                    }
                }
                crate::shapes::lemma_reduced_extents(dst_shape@, axes@, dst_shape@.len() as int);
                crate::shapes::lemma_addr_ok_to_bound(a.shape@, a.strides@, 0, a.data@.len() as int);
                crate::shapes::lemma_max_ofs_expanded(dst_shape@, axes@, a.strides@);
                crate::shapes::lemma_addr_ok_from_bound(
                    dst_shape@,
                    strides@,
                    0,
                    data@.len() as int,
                );
            }
        }
        let id = dev.fresh_id();
        let sh = copy_usizes(dst_shape);
        let out0 = Tensor { id, data, shape: sh, strides, tape: Tape::Untraced };
        tape.alloc_for(a.id, a.data.len());
        tape.alloc_for(out0.id, out0.data.len());
        let op = BackwardOp::ViewBack { inp_id: a.id, out_id: out0.id, len: out0.data.len() };
        proof {
            assert(op_wf(op));
        }
        tape.record(op);
        proof {
            if self.tape is Traced {
                assert(tape->0.ops@.drop_last() =~= self.tape->0.ops@);
            }
        }
        Ok(out0.put_tape(tape))
    }

    /// Inserts stride-zero axes at the listed positions.
    pub fn broadcast(self, dev: &mut Cpu, dst_shape: &Vec<usize>, axes: &Vec<usize>) -> (out:
        Tensor<E>)
        requires
            self.wf(),
            shape_ok(dst_shape@),
            axes_ok(axes@, dst_shape@.len() as nat),
            reduced(dst_shape@, axes@) == self.shape@,
            self.id < old(dev).next_id,
            old(dev).next_id < u64::MAX,
        ensures
            out.wf(),
            out.id == old(dev).next_id,
            final(dev).next_id == old(dev).next_id + 1,
            out.shape@ == dst_shape@,
            out.strides@ == crate::shapes::expanded(dst_shape@, axes@, self.strides@),
            out.data@ == self.data@,
            threads_two(
                self.tape,
                out.tape,
                self.id,
                self.data@.len(),
                out.id,
                self.data@.len(),
            ),
    {
        self.try_broadcast(dev, dst_shape, axes).unwrap()
    }

    /// Reorders the axes through a bijection: a pure view whose shape and
    /// strides are the input's, reindexed, over the same storage.
    pub fn try_permute(self, dev: &mut Cpu, perm: &Vec<usize>) -> (r: Result<Tensor<E>,
        CpuError>)
        requires
            self.wf(),
            crate::shapes::is_perm(perm@, self.shape@.len() as nat),
            shape_ok(crate::shapes::permuted(self.shape@, perm@)),
            self.id < old(dev).next_id,
            old(dev).next_id < u64::MAX,
        ensures
            r is Ok,
            r matches Ok(out) ==> {
                &&& out.wf()
                &&& out.id == old(dev).next_id
                &&& final(dev).next_id == old(dev).next_id + 1
                &&& out.shape@ == crate::shapes::permuted(self.shape@, perm@)
                &&& out.strides@ == crate::shapes::permuted(self.strides@, perm@)
                &&& out.data@ == self.data@
                &&& threads_two(
                    self.tape,
                    out.tape,
                    self.id,
                    self.data@.len(),
                    out.id,
                    self.data@.len(),
                )
                &&& (self.tape is Traced ==> (last_op(out.tape) matches BackwardOp::ViewBack {
                    inp_id,
                    out_id,
                    len,
                } && inp_id == self.id && out_id == out.id && len == self.data@.len()))
            },
    {
        let (a, tape) = self.split_tape();
        let mut tape = tape;
        let rank = a.shape.len();
        let ghost gsh = crate::shapes::permuted(a.shape@, perm@);
        let ghost gst = crate::shapes::permuted(a.strides@, perm@);
        let mut psh: Vec<usize> = Vec::new();
        let mut pst: Vec<usize> = Vec::new();
        let mut i: usize = 0;
        while i < rank
            invariant
                i <= rank,
                rank == a.shape@.len(),
                a.strides@.len() == rank,
                crate::shapes::is_perm(perm@, rank as nat),
                psh@ == gsh.take(i as int),
                pst@ == gst.take(i as int),
                gsh == crate::shapes::permuted(a.shape@, perm@),
                gst == crate::shapes::permuted(a.strides@, perm@),
            decreases rank - i,
        {
            psh.push(a.shape[perm[i]]);
            pst.push(a.strides[perm[i]]);
            proof {
                assert(psh@ =~= gsh.take(i as int + 1));
                assert(pst@ =~= gst.take(i as int + 1));
            }
            i = i + 1;
        }
        proof {
            assert(gsh.take(rank as int) =~= gsh);
            assert(gst.take(rank as int) =~= gst);
            crate::shapes::lemma_numel_zero(a.shape@);
            if numel(a.shape@) == 0 {
                let j = choose|j: int| 0 <= j < a.shape@.len() && a.shape@[j] == 0;
                assert(crate::shapes::perm_hits(perm@, j));
                let i0 = choose|i0: int| 0 <= i0 < perm@.len() && perm@[i0] == j;
                assert(gsh[i0] == 0);
                assert(crate::shapes::has_zero_extent(gsh));
                crate::shapes::lemma_addr_ok_zero_extent(gsh, gst, 0, a.data@.len() as int);
            } else {
                assert forall|j: int| 0 <= j < a.shape@.len() implies 1 <= #[trigger] a.shape@[
                j] by {
                    if a.shape@[j] == 0 {
                        assert(crate::shapes::has_zero_extent(a.shape@));
                    }
                }
                assert forall|j: int| 0 <= j < gsh.len() implies 1 <= #[trigger] gsh[j] by {
                    assert(gsh[j] == a.shape@[perm@[j] as int]);
                }
                crate::shapes::lemma_addr_ok_to_bound(
                    a.shape@,
                    a.strides@,
                    0,
                    a.data@.len() as int,
                );
                crate::shapes::lemma_max_ofs_perm_invariant(perm@, a.shape@, a.strides@);
                crate::shapes::lemma_addr_ok_from_bound(gsh, gst, 0, a.data@.len() as int);
            }
        }
        let data = crate::grid::copy_vec(&a.data);
        let id = dev.fresh_id();
        let out0 = Tensor { id, data, shape: psh, strides: pst, tape: Tape::Untraced };
        tape.alloc_for(a.id, a.data.len());
        tape.alloc_for(out0.id, out0.data.len());
        let op = BackwardOp::ViewBack { inp_id: a.id, out_id: out0.id, len: out0.data.len() };
        proof {
            assert(op_wf(op));
        }
        tape.record(op);
        proof {
            if self.tape is Traced {
                assert(tape->0.ops@.drop_last() =~= self.tape->0.ops@);
            }
        }
        Ok(out0.put_tape(tape))
    }

    /// Reorders the axes through a bijection.
    pub fn permute(self, dev: &mut Cpu, perm: &Vec<usize>) -> (out: Tensor<E>)
        requires
            self.wf(),
            crate::shapes::is_perm(perm@, self.shape@.len() as nat),
            shape_ok(crate::shapes::permuted(self.shape@, perm@)),
            self.id < old(dev).next_id,
            old(dev).next_id < u64::MAX,
        ensures
            out.wf(),
            out.id == old(dev).next_id,
            final(dev).next_id == old(dev).next_id + 1,
            out.shape@ == crate::shapes::permuted(self.shape@, perm@),
            out.strides@ == crate::shapes::permuted(self.strides@, perm@),
            out.data@ == self.data@,
            threads_two(
                self.tape,
                out.tape,
                self.id,
                self.data@.len(),
                out.id,
                self.data@.len(),
            ),
    {
        self.try_permute(dev, perm).unwrap()
    }

    /// Reassembles the logical elements under a new shape of the same
    /// element count. The output owns a fresh contiguous buffer holding the
    /// logical order, whatever the input's layout was.
    pub fn try_reshape(self, dev: &mut Cpu, new_shape: &Vec<usize>) -> (r: Result<Tensor<E>,
        CpuError>)
        requires
            self.wf(),
            shape_ok(new_shape@),
            numel(new_shape@) == numel(self.shape@),
            self.id < old(dev).next_id,
            old(dev).next_id < u64::MAX,
        ensures
            r is Ok,
            r matches Ok(out) ==> {
                &&& out.wf()
                &&& out.id == old(dev).next_id
                &&& final(dev).next_id == old(dev).next_id + 1
                &&& out.shape@ == new_shape@
                &&& out.strides@ == cstrides(new_shape@)
                &&& out.data@ == self.elems()
                &&& threads_two(
                    self.tape,
                    out.tape,
                    self.id,
                    self.data@.len(),
                    out.id,
                    numel(new_shape@),
                )
                &&& (self.tape is Traced ==> (last_op(out.tape) matches
                    BackwardOp::ReshapeBack { inp, out_id } && inp.id == self.id && inp.data@
                    == self.data@ && inp.shape@ == self.shape@ && inp.strides@ == self.strides@
                    && out_id == out.id))
            },
    {
        let (a, tape) = self.split_tape();
        let mut tape = tape;
        let v = a.as_vec();
        let sh = copy_usizes(new_shape);
        let out0: Tensor<E> = dev.tensor_from_vec(v, sh);
        tape.alloc_for(a.id, a.data.len());
        tape.alloc_for(out0.id, out0.data.len());
        let op = BackwardOp::ReshapeBack { inp: a.snap(), out_id: out0.id };
        proof {
            assert(op_wf(op));
        }
        tape.record(op);
        proof {
            if self.tape is Traced {
                assert(tape->0.ops@.drop_last() =~= self.tape->0.ops@);
            }
        }
        Ok(out0.put_tape(tape))
    }

    /// Reassembles the logical elements under a new shape.
    pub fn reshape(self, dev: &mut Cpu, new_shape: &Vec<usize>) -> (out: Tensor<E>)
        requires
            self.wf(),
            shape_ok(new_shape@),
            numel(new_shape@) == numel(self.shape@),
            self.id < old(dev).next_id,
            old(dev).next_id < u64::MAX,
        ensures
            out.wf(),
            out.id == old(dev).next_id,
            final(dev).next_id == old(dev).next_id + 1,
            out.shape@ == new_shape@,
            out.strides@ == cstrides(new_shape@),
            out.data@ == self.elems(),
            threads_two(
                self.tape,
                out.tape,
                self.id,
                self.data@.len(),
                out.id,
                numel(new_shape@),
            ),
    {
        self.try_reshape(dev, new_shape).unwrap()
    }

    /// Replays the recorded steps in reverse, newest first, after seeding
    /// this scalar's own gradient buffer with ones. The result maps every
    /// participating tensor identity to its gradient buffer.
    pub fn backward(self) -> (g: Gradients<E>)
        requires
            self.wf(),
            self.is_traced(),
            numel(self.shape@) == 1,
        ensures
            g.wf(),
            g.gmap() == replay(
                self.tape->0.ops@,
                self.tape->0.grads.gmap().insert(self.id, one_seq::<E>(self.data@.len())),
            ),
    {
        let (t, tape) = self.split_tape();
        let mut ot = match tape {
            Tape::Traced(ot) => ot,
            Tape::Untraced => {
                proof {
                    assert(false);
                }
                OwnedTape::new_empty()
            },
        };
        ot.grads.alloc_sized(t.id, t.data.len());
        let seed = ones_vec::<E>(t.data.len());
        ot.grads.set_buf(t.id, seed);
        let ghost m0 = self.tape->0.grads.gmap().insert(
            t.id,
            one_seq::<E>(t.data@.len()),
        );
        proof {
            assert(ot.grads.gmap() =~= m0);
        }
        let n = ot.ops.len();
        let mut k: usize = n;
        proof {
            assert(ot.ops@.skip(n as int) =~= Seq::<BackwardOp<E>>::empty());
        }
        while k > 0
            invariant
                k <= n,
                n == ot.ops@.len(),
                ot.ops@ == self.tape->0.ops@,
                forall|i: int| 0 <= i < ot.ops@.len() ==> op_wf(#[trigger] ot.ops@[i]),
                ot.grads.wf(),
                ot.grads.gmap() == replay(ot.ops@.skip(k as int), m0),
            decreases k,
        {
            k = k - 1;
            proof {
                crate::tape::lemma_replay_front(ot.ops@.skip(k as int), m0);
                assert(ot.ops@.skip(k as int)[0] == ot.ops@[k as int]);
                assert(ot.ops@.skip(k as int).skip(1) =~= ot.ops@.skip(k as int + 1));
            }
            let op = &ot.ops[k];
            run_step(op, &mut ot.grads);
        }
        proof {
            assert(ot.ops@.skip(0) =~= ot.ops@);
        }
        ot.grads
    }
}

/// Element-wise maximum of two tensors of one shape.
pub fn maximum<E: Scalar>(lhs: Tensor<E>, rhs: Tensor<E>, dev: &mut Cpu) -> (out: Tensor<E>)
    requires
        lhs.wf(),
        rhs.wf(),
        lhs.shape@ == rhs.shape@,
        lhs.id < old(dev).next_id,
        rhs.id < old(dev).next_id,
        old(dev).next_id < u64::MAX,
    ensures
        out.wf(),
        out.id == old(dev).next_id,
        final(dev).next_id == old(dev).next_id + 1,
        out.shape@ == lhs.shape@,
        out.data@ == zip_bin(BinKind::MaximumB, lhs.elems(), rhs.elems()),
    {
    lhs.maximum(rhs, dev)
}

/// Reduction along listed axes using `sum`.
pub trait SumTo<E: Scalar>: Sized {
    /// What the reduction asks of its input: see the implementation.
    spec fn red_pre(self, dev: Cpu, axes: Seq<usize>) -> bool;

    /// What the reduction delivers: see the implementation.
    spec fn sum_post(self, dev0: Cpu, dev1: Cpu, axes: Seq<usize>, out: Tensor<E>) -> bool;

    /// Sum reduction over the listed axes.
    fn try_sum(self, dev: &mut Cpu, axes: &Vec<usize>) -> (r: Result<Tensor<E>, CpuError>)
        requires
            self.red_pre(*old(dev), axes@),
        ensures
            r is Ok,
            r matches Ok(out) ==> self.sum_post(*old(dev), *final(dev), axes@, out),
    ;

    /// Sum reduction over the listed axes.
    fn sum(self, dev: &mut Cpu, axes: &Vec<usize>) -> (out: Tensor<E>)
        requires
            self.red_pre(*old(dev), axes@),
        ensures
            self.sum_post(*old(dev), *final(dev), axes@, out),
    ;
}

/// What a reduction over `axes` asks of a tensor: a valid view, a valid
/// strictly-increasing axis list, a representable output shape, and a device
/// that stamped the tensor and has identities left.
pub open spec fn reduce_pre<E: Scalar>(t: Tensor<E>, dev: Cpu, axes: Seq<usize>) -> bool {
    &&& t.wf()
    &&& axes_ok(axes, t.shape@.len() as nat)
    &&& shape_ok(reduced(t.shape@, axes))
    &&& t.id < dev.next_id
    &&& dev.next_id < u64::MAX
}

/// What a reduction of the given fold delivers: a fresh contiguous tensor of
/// the reduced shape holding exactly the fold of the input's elements, with
/// one backward step recorded.
pub open spec fn reduce_post<E: Scalar>(
    t: Tensor<E>,
    dev0: Cpu,
    dev1: Cpu,
    axes: Seq<usize>,
    kind: RedKind,
    out: Tensor<E>,
) -> bool {
    &&& out.wf()
    &&& out.id == dev0.next_id
    &&& dev1.next_id == dev0.next_id + 1
    &&& dev1.rng == dev0.rng
    &&& out.shape@ == reduced(t.shape@, axes)
    &&& out.strides@ == cstrides(out.shape@)
    &&& out.data@ == reduce_fwd(kind, t.elems(), t.shape@, axes)
    &&& out.data@.len() == numel(out.shape@)
    &&& threads_two(t.tape, out.tape, t.id, t.data@.len(), out.id, numel(out.shape@))
    &&& (t.tape is Traced ==> (last_op(out.tape) matches BackwardOp::Reduce {
        kind: k2,
        inp,
        out: ou,
        axes: a2,
    } && k2 == kind && inp.id == t.id && inp.data@ == t.data@ && inp.shape@ == t.shape@
        && inp.strides@ == t.strides@ && ou.id == out.id && ou.data@ == out.data@ && a2@
        == axes))
}

impl<E: Scalar> SumTo<E> for Tensor<E> {
    open spec fn red_pre(self, dev: Cpu, axes: Seq<usize>) -> bool {
        reduce_pre(self, dev, axes)
    }

    open spec fn sum_post(self, dev0: Cpu, dev1: Cpu, axes: Seq<usize>, out: Tensor<E>) -> bool {
        reduce_post(self, dev0, dev1, axes, RedKind::SumRed, out)
    }

    fn try_sum(self, dev: &mut Cpu, axes: &Vec<usize>) -> (r: Result<Tensor<E>, CpuError>) {
        self.try_reduce(dev, axes, RedKind::SumRed)
    }

    fn sum(self, dev: &mut Cpu, axes: &Vec<usize>) -> (out: Tensor<E>) {
        self.try_reduce(dev, axes, RedKind::SumRed).unwrap()
    }
}

/// What the extremum reductions ask beyond `reduce_pre`: no output slot may
/// face an empty slice, so an input without elements must reduce to an
/// output without slots.
pub open spec fn extremum_pre<E: Scalar>(t: Tensor<E>, dev: Cpu, axes: Seq<usize>) -> bool {
    &&& reduce_pre(t, dev, axes)
    &&& (numel(t.shape@) == 0 ==> numel(reduced(t.shape@, axes)) == 0)
}

/// Reduction along listed axes using `max`. Every input position whose value
/// numerically equals its slice's maximum receives the whole output gradient
/// on the way back.
pub trait MaxTo<E: Scalar>: Sized {
    /// What the reduction asks of its input: see the implementation.
    spec fn max_pre(self, dev: Cpu, axes: Seq<usize>) -> bool;

    /// What the reduction delivers: see the implementation.
    spec fn max_post(self, dev0: Cpu, dev1: Cpu, axes: Seq<usize>, out: Tensor<E>) -> bool;

    /// Max reduction over the listed axes.
    fn try_max(self, dev: &mut Cpu, axes: &Vec<usize>) -> (r: Result<Tensor<E>, CpuError>)
        requires
            self.max_pre(*old(dev), axes@),
        ensures
            r is Ok,
            r matches Ok(out) ==> self.max_post(*old(dev), *final(dev), axes@, out),
    ;

    /// Max reduction over the listed axes.
    fn max(self, dev: &mut Cpu, axes: &Vec<usize>) -> (out: Tensor<E>)
        requires
            self.max_pre(*old(dev), axes@),
        ensures
            self.max_post(*old(dev), *final(dev), axes@, out),
    ;
}

impl<E: Scalar> MaxTo<E> for Tensor<E> {
    open spec fn max_pre(self, dev: Cpu, axes: Seq<usize>) -> bool {
        extremum_pre(self, dev, axes)
    }

    open spec fn max_post(self, dev0: Cpu, dev1: Cpu, axes: Seq<usize>, out: Tensor<E>) -> bool {
        reduce_post(self, dev0, dev1, axes, RedKind::MaxRed, out)
    }

    fn try_max(self, dev: &mut Cpu, axes: &Vec<usize>) -> (r: Result<Tensor<E>, CpuError>) {
        self.try_reduce(dev, axes, RedKind::MaxRed)
    }

    fn max(self, dev: &mut Cpu, axes: &Vec<usize>) -> (out: Tensor<E>) {
        self.try_reduce(dev, axes, RedKind::MaxRed).unwrap()
    }
}

/// Reduction along listed axes using `min`, the mirror of `MaxTo`.
pub trait MinTo<E: Scalar>: Sized {
    /// What the reduction asks of its input: see the implementation.
    spec fn min_pre(self, dev: Cpu, axes: Seq<usize>) -> bool;

    /// What the reduction delivers: see the implementation.
    spec fn min_post(self, dev0: Cpu, dev1: Cpu, axes: Seq<usize>, out: Tensor<E>) -> bool;

    /// Min reduction over the listed axes.
    fn try_min(self, dev: &mut Cpu, axes: &Vec<usize>) -> (r: Result<Tensor<E>, CpuError>)
        requires
            self.min_pre(*old(dev), axes@),
        ensures
            r is Ok,
            r matches Ok(out) ==> self.min_post(*old(dev), *final(dev), axes@, out),
    ;

    /// Min reduction over the listed axes.
    fn min(self, dev: &mut Cpu, axes: &Vec<usize>) -> (out: Tensor<E>)
        requires
            self.min_pre(*old(dev), axes@),
        ensures
            self.min_post(*old(dev), *final(dev), axes@, out),
    ;
}

impl<E: Scalar> MinTo<E> for Tensor<E> {
    open spec fn min_pre(self, dev: Cpu, axes: Seq<usize>) -> bool {
        extremum_pre(self, dev, axes)
    }

    open spec fn min_post(self, dev0: Cpu, dev1: Cpu, axes: Seq<usize>, out: Tensor<E>) -> bool {
        reduce_post(self, dev0, dev1, axes, RedKind::MinRed, out)
    }

    fn try_min(self, dev: &mut Cpu, axes: &Vec<usize>) -> (r: Result<Tensor<E>, CpuError>) {
        self.try_reduce(dev, axes, RedKind::MinRed)
    }

    fn min(self, dev: &mut Cpu, axes: &Vec<usize>) -> (out: Tensor<E>) {
        self.try_reduce(dev, axes, RedKind::MinRed).unwrap()
    }
}

/// The axis list `0, 1, .., rank-1`.
pub open spec fn all_axes(rank: nat) -> Seq<usize> {
    Seq::new(rank, |i: int| i as usize)
}

/// Builds the axis list `0, 1, .., rank-1`.
pub fn axes_upto(rank: usize) -> (r: Vec<usize>)
    ensures
        r@ == all_axes(rank as nat),
        axes_ok(r@, rank as nat),
{
    let mut r: Vec<usize> = Vec::new();
    let mut i: usize = 0;
    while i < rank
        invariant
            i <= rank,
            r@.len() == i,
            forall|j: int| 0 <= j < i ==> r@[j] == j as usize,
        decreases rank - i,
    {
        r.push(i);
        i = i + 1;
    }
    assert(r@ =~= all_axes(rank as nat));
    r
}

/// Reducing over every axis leaves the empty shape.
pub proof fn lemma_reduced_all(shape: Seq<usize>, axes: Seq<usize>)
    requires
        forall|j: int| 0 <= j < shape.len() ==> ax_has_int(axes, j),
    ensures
        reduced(shape, axes).len() == 0,
        reduced(shape, axes) == Seq::<usize>::empty(),
{
    lemma_kept_all(shape, axes, shape.len() as int);
    assert(reduced(shape, axes) =~= Seq::<usize>::empty());
}

/// Helper alias so the quantifier above has a clean trigger.
pub open spec fn ax_has_int(axes: Seq<usize>, j: int) -> bool {
    crate::shapes::ax_has(axes, j)
}

proof fn lemma_kept_all(shape: Seq<usize>, axes: Seq<usize>, i: int)
    requires
        forall|j: int| 0 <= j < shape.len() ==> ax_has_int(axes, j),
        i <= shape.len(),
    ensures
        crate::shapes::kept_up_to(shape, axes, i).len() == 0,
    decreases i,
{
    if i > 0 {
        lemma_kept_all(shape, axes, i - 1);
        assert(ax_has_int(axes, i - 1));
    }
}

/// The payload of a stack: the physical buffers of the first `t` inputs,
/// laid end to end.
pub open spec fn stack_data<E: Scalar>(items: Seq<Tensor<E>>, t: nat) -> Seq<E>
    decreases t,
{
    if t == 0 {
        Seq::empty()
    } else {
        stack_data(items, (t - 1) as nat) + items[t - 1].data@
    }
}

/// The recorded steps of the first `t` inputs, in input order.
pub open spec fn stack_ops<E: Scalar>(items: Seq<Tensor<E>>, t: nat) -> Seq<BackwardOp<E>>
    decreases t,
{
    if t == 0 {
        Seq::empty()
    } else {
        stack_ops(items, (t - 1) as nat) + tape_ops(items[t - 1].tape)
    }
}

/// The merged gradient buffers of the first `t` inputs: earlier inputs win.
pub open spec fn stack_gmap<E: Scalar>(items: Seq<Tensor<E>>, t: nat) -> Map<u64, Seq<E>>
    decreases t,
{
    if t == 0 {
        Map::empty()
    } else {
        let p = stack_gmap(items, (t - 1) as nat);
        match items[t - 1].tape {
            Tape::Untraced => p,
            Tape::Traced(ot) => crate::tape::merge_map(
                p,
                ot.grads.ids@,
                ot.grads.bufs@,
                ot.grads.ids@.len(),
            ),
        }
    }
}

/// The identities of the first `t` inputs, in input order.
pub open spec fn ids_of<E: Scalar>(items: Seq<Tensor<E>>, t: nat) -> Seq<u64>
    decreases t,
{
    if t == 0 {
        Seq::empty()
    } else {
        ids_of(items, (t - 1) as nat).push(items[t - 1].id)
    }
}

/// Gradient buffers registered for the listed identities, first `t` of
/// them, each of length `slab`.
pub open spec fn fix_ids<E: Scalar>(
    m: Map<u64, Seq<E>>,
    ids: Seq<u64>,
    slab: nat,
    t: nat,
) -> Map<u64, Seq<E>>
    decreases t,
{
    if t == 0 {
        m
    } else {
        fix_one(fix_ids(m, ids, slab, (t - 1) as nat), ids[t - 1], slab)
    }
}

/// A shape that can grow a new leading axis.
pub trait AddDim: Sized + View<V = Seq<usize>> {
    /// The shape with `dim` prepended.
    fn add_dim(&self, dim: usize) -> (r: Vec<usize>)
        ensures
            r@ == seq![dim] + self@,
    ;
}

impl AddDim for Vec<usize> {
    fn add_dim(&self, dim: usize) -> (r: Vec<usize>)
        ensures
            r@ == seq![dim] + self@,
    {
        let mut r: Vec<usize> = Vec::new();
        r.push(dim);
        let n = self.len();
        let mut k: usize = 0;
        while k < n
            invariant
                k <= n,
                n == self@.len(),
                r@ == seq![dim] + self@.take(k as int),
            decreases n - k,
        {
            r.push(self[k]);
            proof {
                assert(r@ =~= seq![dim] + self@.take(k as int + 1));
            }
            k = k + 1;
        }
        proof {
            assert(seq![dim] + self@.take(n as int) =~= seq![dim] + self@);
        }
        r
    }
}

/// What a stack asks of its inputs: at least one tensor, all of one shape,
/// one stride vector and one physical size, none empty, all stamped by this
/// device, and a representable stacked shape.
pub open spec fn stack_pre<E: Scalar>(items: Seq<Tensor<E>>, dev: Cpu) -> bool {
    &&& items.len() >= 1
    &&& forall|i: int| 0 <= i < items.len() ==> (#[trigger] items[i]).wf()
    &&& forall|i: int|
        0 <= i < items.len() ==> (#[trigger] items[i]).shape@ == items[0].shape@
            && items[i].strides@ == items[0].strides@ && items[i].data@.len()
            == items[0].data@.len()
    &&& forall|i: int| 0 <= i < items.len() ==> (#[trigger] items[i]).id < dev.next_id
    &&& dev.next_id < u64::MAX
    &&& numel(items[0].shape@) >= 1
    &&& shape_ok(seq![items.len() as usize] + items[0].shape@)
}

/// What a stack delivers: the concatenated payload under a new leading axis,
/// a merged tape, and one backward step that hands each input its slab back.
pub open spec fn stack_post<E: Scalar>(
    items: Seq<Tensor<E>>,
    dev0: Cpu,
    dev1: Cpu,
    out: Tensor<E>,
) -> bool {
    &&& out.wf()
    &&& out.id == dev0.next_id
    &&& dev1.next_id == dev0.next_id + 1
    &&& dev1.rng == dev0.rng
    &&& out.shape@ == seq![items.len() as usize] + items[0].shape@
    &&& out.strides@ == seq![items[0].data@.len() as usize] + items[0].strides@
    &&& out.data@ == stack_data(items, items.len())
    &&& out.data@.len() == items.len() * items[0].data@.len()
    &&& ((forall|i: int| 0 <= i < items.len() ==> (#[trigger] items[i]).tape is Untraced)
        ==> out.tape is Untraced)
    &&& ((exists|i: int| 0 <= i < items.len() && (#[trigger] items[i]).tape is Traced) ==> {
        &&& out.tape is Traced
        &&& out.tape->0.wf()
        &&& out.tape->0.ops@.len() == stack_ops(items, items.len()).len() + 1
        &&& out.tape->0.ops@.drop_last() == stack_ops(items, items.len())
        &&& out.tape->0.grads.gmap() == fix_one(
            fix_ids(
                stack_gmap(items, items.len()),
                ids_of(items, items.len()),
                items[0].data@.len(),
                items.len(),
            ),
            out.id,
            items.len() * items[0].data@.len(),
        )
        &&& (out.tape->0.ops@.last() matches BackwardOp::StackBack { inp_ids, slab, out_id }
            && inp_ids@ == ids_of(items, items.len()) && slab == items[0].data@.len()
            && out_id == out.id)
    })
}

/// Stacks tensors along a new leading axis.
pub trait TryStack<E: Scalar>: Sized {
    /// What a stack asks of its inputs: see the implementation.
    spec fn stack_pre_of(self, items: Seq<Tensor<E>>) -> bool;

    /// What a stack delivers: see the implementation.
    spec fn stack_post_of(self, post: Self, items: Seq<Tensor<E>>, out: Tensor<E>) -> bool;

    /// Stacks tensors of one shape, one stride vector and one physical size
    /// along a new leading axis: the payload is their physical buffers laid
    /// end to end, and the leading stride is the physical size, so the
    /// stacked view keeps each input's broadcast structure.
    fn try_stack(&mut self, items: Vec<Tensor<E>>) -> (r: Result<Tensor<E>, CpuError>)
        requires
            old(self).stack_pre_of(items@),
        ensures
            r is Ok,
            r matches Ok(out) ==> old(self).stack_post_of(*final(self), items@, out),
    ;

    /// Stacks tensors of one shape along a new leading axis.
    fn stack(&mut self, items: Vec<Tensor<E>>) -> (out: Tensor<E>)
        requires
            old(self).stack_pre_of(items@),
        ensures
            old(self).stack_post_of(*final(self), items@, out),
    ;
}

impl<E: Scalar> TryStack<E> for Cpu {
    open spec fn stack_pre_of(self, items: Seq<Tensor<E>>) -> bool {
        stack_pre(items, self)
    }

    open spec fn stack_post_of(self, post: Cpu, items: Seq<Tensor<E>>, out: Tensor<E>) -> bool {
        stack_post(items, self, post, out)
    }

    #[verifier::loop_isolation(false)]
    fn try_stack(&mut self, items: Vec<Tensor<E>>) -> (r: Result<Tensor<E>, CpuError>) {
        let ghost gitems = items@;
        let n = items.len();
        let shape0 = copy_usizes(&items[0].shape);
        let strides0 = copy_usizes(&items[0].strides);
        let slab = items[0].data.len();
        let mut data: Vec<E> = Vec::new();
        let mut ids: Vec<u64> = Vec::new();
        let mut acc: Tape<E> = Tape::Traced(OwnedTape::new_empty());
        let mut any: bool = false;
        let mut items = items;
        let mut t: usize = 0;
        proof {
            assert(acc->0.ops@ =~= stack_ops(gitems, 0));
            assert(acc->0.grads.gmap() =~= stack_gmap(gitems, 0));
        }
        while t < n
            invariant
                t <= n,
                items@ == gitems.skip(t as int),
                data@ == stack_data(gitems, t as nat),
                data@.len() == t * slab,
                ids@ == ids_of(gitems, t as nat),
                ids@.len() == t,
                acc is Traced,
                acc->0.wf(),
                acc->0.ops@ == stack_ops(gitems, t as nat),
                acc->0.grads.gmap() == stack_gmap(gitems, t as nat),
                any <==> (exists|i: int|
                    0 <= i < t && (#[trigger] gitems[i]).tape is Traced),
            decreases n - t,
        {
            let it = items.remove(0);
            proof {
                assert(gitems.skip(t as int)[0] == gitems[t as int]);
                assert(gitems.skip(t as int).skip(1) =~= gitems.skip(t as int + 1));
            }
            let (a, ti) = it.split_tape();
            if matches!(&ti, Tape::Traced(_)) {
                any = true;
            }
            acc = acc.merge(ti);
            let Tensor { id: aid, data: mut ad, shape: _, strides: _, tape: _ } = a;
            data.append(&mut ad);
            ids.push(aid);
            proof {
                assert((t + 1) * slab == t * slab + slab) by (nonlinear_arith);
            }
            t = t + 1;
        }
        let osh = shape0.add_dim(n);
        let ostr = strides0.add_dim(slab);
        proof {
            // the stacked view addresses inside the concatenated payload
            assert(osh@.skip(1) =~= shape0@);
            assert(ostr@.skip(1) =~= strides0@);
            assert forall|i: int| 0 <= i < n implies addr_ok(
                shape0@,
                strides0@,
                0 + #[trigger] crate::shapes::mul_ofs(i, slab as int),
                data@.len() as int,
            ) by {
                assert(crate::shapes::mul_ofs(i, slab as int) == i * slab);
                assert(addr_ok(shape0@, strides0@, 0, slab as int));
                crate::shapes::lemma_addr_ok_shift(shape0@, strides0@, 0, slab as int, i * slab);
                assert(i * slab + slab <= n * slab) by (nonlinear_arith)
                    requires
                        0 <= i < n,
                        slab >= 0,
                ;
                crate::shapes::lemma_addr_ok_widen(
                    shape0@,
                    strides0@,
                    i * slab,
                    slab + i * slab,
                    data@.len() as int,
                );
            }
            assert(addr_ok(osh@, ostr@, 0, data@.len() as int));
        }
        let id = self.fresh_id();
        let out0 = Tensor { id, data, shape: osh, strides: ostr, tape: Tape::Untraced };
        let mut tape: Tape<E> = if any {
            acc
        } else {
            Tape::Untraced
        };
        let mut k3: usize = 0;
        let ghost gm0 = stack_gmap(gitems, n as nat);
        while k3 < n
            invariant
                k3 <= n,
                ids@ == ids_of(gitems, n as nat),
                ids@.len() == n,
                tape.wf(),
                !any ==> tape is Untraced,
                any ==> tape is Traced && tape->0.ops@ == stack_ops(gitems, n as nat)
                    && tape->0.grads.gmap() == fix_ids(gm0, ids@, slab as nat, k3 as nat),
            decreases n - k3,
        {
            tape.alloc_for(ids[k3], slab);
            k3 = k3 + 1;
        }
        tape.alloc_for(out0.id, out0.data.len());
        let op = BackwardOp::StackBack { inp_ids: ids, slab, out_id: out0.id };
        proof {
            assert(op_wf(op));
        }
        tape.record(op);
        proof {
            if any {
                assert(tape->0.ops@.drop_last() =~= stack_ops(gitems, n as nat));
            }
        }
        Ok(out0.put_tape(tape))
    }

    fn stack(&mut self, items: Vec<Tensor<E>>) -> (out: Tensor<E>) {
        self.try_stack(items).unwrap()
    }
}

} // verus!
