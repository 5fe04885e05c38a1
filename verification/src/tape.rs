use vstd::prelude::*;
use crate::grid::{acc2, copy_vec, materialize, zero_seq, zeros_vec, AccOp};
use crate::kernels::{add_seq, add_vec, bin_bwd_l_vec, bin_bwd_r_vec, map_un_back, reduce_bwd_vec,
    reduce_bwd_spec, scatter_accum, sel_back, slab_add, slab_add_vec, un_bwd_vec, un_wf, zip_bin_back_l,
    zip_bin_back_r, BinKind, RedKind, UnKind};
use crate::grid::logical;
use crate::scalar::Scalar;
use crate::pool::{pool_bwd_acc, pool_bwd_vec, Pool2DOp, PoolKind};
use crate::shapes::{axes_ok, cstrides, numel, reduced, shape_ok};
use crate::tensor::Snap;

verus! {

/// Index of the first occurrence of `id`, or `-1` when absent.
pub open spec fn idx_of(ids: Seq<u64>, id: u64) -> int
    decreases ids.len(),
{
    if ids.len() == 0 {
        -1
    } else if ids[0] == id {
        0
    } else {
        let r = idx_of(ids.skip(1), id);
        if r < 0 {
            -1
        } else {
            r + 1
        }
    }
}

pub proof fn lemma_idx_of(ids: Seq<u64>, id: u64)
    ensures
        ids.contains(id) <==> 0 <= idx_of(ids, id) < ids.len(),
        ids.contains(id) ==> ids[idx_of(ids, id)] == id,
    decreases ids.len(),
{
    if ids.len() > 0 && ids[0] != id {
        lemma_idx_of(ids.skip(1), id);
        if ids.contains(id) {
            let j = choose|j: int| 0 <= j < ids.len() && ids[j] == id;
            assert(ids.skip(1)[j - 1] == id);
            assert(ids.skip(1).contains(id));
        }
        if ids.skip(1).contains(id) {
            let j = idx_of(ids.skip(1), id);
            assert(ids[j + 1] == ids.skip(1)[j]);
            assert(ids.contains(id));
        }
    }
}

/// With pairwise-distinct entries, any index holding `id` is the index.
pub proof fn lemma_idx_of_unique(ids: Seq<u64>, id: u64, i: int)
    requires
        forall|a: int, b: int| 0 <= a < b < ids.len() ==> ids[a] != ids[b],
        0 <= i < ids.len(),
        ids[i] == id,
    ensures
        idx_of(ids, id) == i,
{
    assert(ids.contains(id));
    lemma_idx_of(ids, id);
    let j = idx_of(ids, id);
    if j != i {
        assert(ids[i] == ids[j]);
    }
}

/// Pushing a fresh entry leaves the indices of the present ones alone and
/// puts the new one at the end.
pub proof fn lemma_idx_of_push(ids: Seq<u64>, id: u64, x: u64)
    ensures
        ids.contains(id) ==> idx_of(ids.push(x), id) == idx_of(ids, id),
        !ids.contains(id) && x == id ==> idx_of(ids.push(x), id) == ids.len(),
        !ids.contains(id) && x != id ==> idx_of(ids.push(x), id) == -1,
    decreases ids.len(),
{
    lemma_idx_of(ids, id);
    if ids.len() == 0 {
        assert(ids.push(x).len() == 1);
        assert(ids.push(x)[0] == x);
        assert(ids.push(x).skip(1) =~= Seq::<u64>::empty());
        assert(idx_of(Seq::<u64>::empty(), id) == -1);
        if x != id {
            assert(idx_of(ids.push(x), id) == -1);
        }
    } else {
        lemma_idx_of_push(ids.skip(1), id, x);
        lemma_idx_of(ids.skip(1), id);
        assert(ids.push(x).skip(1) =~= ids.skip(1).push(x));
        assert(ids.push(x)[0] == ids[0]);
        if !ids.contains(id) && ids.skip(1).contains(id) {
            let j = idx_of(ids.skip(1), id);
            assert(ids[j + 1] == ids.skip(1)[j]);
            assert(ids.contains(id));
        }
        if ids[0] == id {
            assert(ids.contains(id));
        }
        if ids.skip(1).contains(id) {
            let j = idx_of(ids.skip(1), id);
            assert(ids[j + 1] == ids.skip(1)[j]);
            assert(ids.contains(id));
        }
        if ids.contains(id) && ids[0] != id {
            let j = choose|j: int| 0 <= j < ids.len() && ids[j] == id;
            assert(ids.skip(1)[j - 1] == id);
            assert(ids.skip(1).contains(id));
        }
        if !ids.contains(id) && x != id {
            assert(ids[0] != id);
            assert(!ids.skip(1).contains(id));
            assert(idx_of(ids.skip(1).push(x), id) == -1);
            assert(idx_of(ids.push(x), id) == -1);
        }
    }
}

/// The gradient map of a tape: one zero-initialised buffer for each
/// registered tensor identity, keyed by identity.
pub struct Gradients<E> {
    pub ids: Vec<u64>,
    pub bufs: Vec<Vec<E>>,
}

impl<E: Scalar> Gradients<E> {
    /// The two columns stay aligned and no identity appears twice.
    pub open spec fn wf(self) -> bool {
        &&& self.ids@.len() == self.bufs@.len()
        &&& forall|a: int, b: int|
            0 <= a < b < self.ids@.len() ==> self.ids@[a] != self.ids@[b]
    }

    /// Whether `id` has a buffer.
    pub open spec fn has(self, id: u64) -> bool {
        self.ids@.contains(id)
    }

    /// The map this structure represents.
    pub open spec fn gmap(self) -> Map<u64, Seq<E>> {
        Map::new(
            |id: u64| self.ids@.contains(id),
            |id: u64| self.bufs@[idx_of(self.ids@, id)]@,
        )
    }

    pub fn new_empty() -> (r: Gradients<E>)
        ensures
            r.wf(),
            r.gmap() == Map::<u64, Seq<E>>::empty(),
            r.ids@.len() == 0,
    {
        let r = Gradients { ids: Vec::new(), bufs: Vec::new() };
        proof {
            assert(r.gmap() =~= Map::<u64, Seq<E>>::empty());
        }
        r
    }

    fn find(&self, id: u64) -> (r: Option<usize>)
        requires
            self.wf(),
        ensures
            match r {
                Some(i) => self.has(id) && i == idx_of(self.ids@, id),
                None => !self.has(id),
            },
    {
        let n = self.ids.len();
        let mut k: usize = 0;
        while k < n
            invariant
                k <= n,
                n == self.ids@.len(),
                self.wf(),
                forall|j: int| 0 <= j < k ==> self.ids@[j] != id,
            decreases n - k,
        {
            if self.ids[k] == id {
                proof {
                    lemma_idx_of_unique(self.ids@, id, k as int);
                }
                return Some(k);
            }
            k = k + 1;
        }
        proof {
            if self.has(id) {
                let j = choose|j: int| 0 <= j < self.ids@.len() && self.ids@[j] == id;
                assert(false);
            }
        }
        None
    }

    /// Whether `id` has a buffer.
    pub fn contains(&self, id: u64) -> (r: bool)
        requires
            self.wf(),
        ensures
            r == self.has(id),
    {
        self.find(id).is_some()
    }

    /// Appends a fresh entry.
    fn push_entry(&mut self, id: u64, buf: Vec<E>)
        requires
            old(self).wf(),
            !old(self).has(id),
        ensures
            final(self).wf(),
            final(self).gmap() == old(self).gmap().insert(id, buf@),
            final(self).has(id),
            forall|x: u64| old(self).has(x) ==> final(self).has(x),
    {
        proof {
            assert forall|x: u64| true implies (self.ids@.push(id).contains(x) <==> (
            self.ids@.contains(x) || x == id)) by {
                if self.ids@.push(id).contains(x) {
                    let j = choose|j: int|
                        0 <= j < self.ids@.push(id).len() && self.ids@.push(id)[j] == x;
                    if j < self.ids@.len() {
                        assert(self.ids@[j] == x);
                    }
                }
                if self.ids@.contains(x) {
                    let j = choose|j: int| 0 <= j < self.ids@.len() && self.ids@[j] == x;
                    assert(self.ids@.push(id)[j] == x);
                }
                if x == id {
                    assert(self.ids@.push(id)[self.ids@.len() as int] == x);
                }
            }
        }
        let ghost pre = *self;
        self.ids.push(id);
        self.bufs.push(buf);
        proof {
            assert forall|x: u64| pre.ids@.contains(x) implies #[trigger] self.gmap()[x]
                == pre.gmap()[x] by {
                lemma_idx_of_push(pre.ids@, x, id);
                lemma_idx_of(pre.ids@, x);
            }
            lemma_idx_of_push(pre.ids@, id, id);
            assert(self.gmap() =~= pre.gmap().insert(id, buf@));
        }
    }

    /// Registers a zeroed buffer of the given length for `id`. An `id` that
    /// already holds a buffer of that length keeps it; one that holds a
    /// buffer of another length (which no well-formed history produces, as
    /// identities are unique) has it replaced by a zeroed one.
    pub fn alloc_sized(&mut self, id: u64, len: usize)
        requires
            old(self).wf(),
        ensures
            final(self).wf(),
            final(self).gmap() == old(self).gmap().insert(
                id,
                if old(self).has(id) && old(self).gmap()[id].len() == len {
                    old(self).gmap()[id]
                } else {
                    zero_seq::<E>(len as nat)
                },
            ),
            final(self).has(id),
            forall|x: u64| old(self).has(x) ==> final(self).has(x),
    {
        match self.find(id) {
            Some(i) => {
                proof {
                    lemma_idx_of(self.ids@, id);
                }
                if self.bufs[i].len() != len {
                    let buf = zeros_vec::<E>(len);
                    self.set_buf(id, buf);
                } else {
                    proof {
                        assert(self.gmap() =~= old(self).gmap().insert(id, self.gmap()[id]));
                    }
                }
                return;
            },
            None => {},
        }
        if self.find(id).is_none() {
            let buf = zeros_vec::<E>(len);
            self.push_entry(id, buf);
        }
    }

    /// A copy of the buffer registered for `id`.
    pub fn grad_copy(&self, id: u64) -> (r: Vec<E>)
        requires
            self.wf(),
            self.has(id),
        ensures
            r@ == self.gmap()[id],
    {
        let i = self.find(id).unwrap();
        proof {
            lemma_idx_of(self.ids@, id);
        }
        copy_vec(&self.bufs[i])
    }

    /// Replaces the buffer registered for `id`.
    pub fn set_buf(&mut self, id: u64, buf: Vec<E>)
        requires
            old(self).wf(),
            old(self).has(id),
        ensures
            final(self).wf(),
            final(self).gmap() == old(self).gmap().insert(id, buf@),
            final(self).ids@ == old(self).ids@,
            forall|x: u64| old(self).has(x) ==> final(self).has(x),
    {
        let i = self.find(id).unwrap();
        proof {
            lemma_idx_of(self.ids@, id);
        }
        self.bufs.set(i, buf);
        proof {
            let pre = *old(self);
            assert forall|x: u64| pre.ids@.contains(x) && x != id implies #[trigger] self.gmap()[
            x] == pre.gmap()[x] by {
                lemma_idx_of(pre.ids@, x);
                lemma_idx_of(pre.ids@, id);
            }
            lemma_idx_of(pre.ids@, id);
            assert(self.gmap() =~= pre.gmap().insert(id, buf@));
        }
    }
}

/// The gradient map after the entries of another map are folded in, first
/// `k` of them: an identity already present keeps its buffer, the rest are
/// adopted.
pub open spec fn merge_map<E: Scalar>(
    a: Map<u64, Seq<E>>,
    b_ids: Seq<u64>,
    b_bufs: Seq<Vec<E>>,
    k: nat,
) -> Map<u64, Seq<E>>
    decreases k,
{
    if k == 0 {
        a
    } else {
        let m = merge_map(a, b_ids, b_bufs, (k - 1) as nat);
        if m.contains_key(b_ids[k - 1]) {
            m
        } else {
            m.insert(b_ids[k - 1], b_bufs[k - 1]@)
        }
    }
}

impl<E: Scalar> Gradients<E> {
    /// Folds another gradient map into this one: buffers already here win.
    pub fn merge_from(&mut self, other: Gradients<E>)
        requires
            old(self).wf(),
            other.wf(),
        ensures
            final(self).wf(),
            final(self).gmap() == merge_map(
                old(self).gmap(),
                other.ids@,
                other.bufs@,
                other.ids@.len(),
            ),
    {
        let n = other.ids.len();
        let mut k: usize = 0;
        while k < n
            invariant
                k <= n,
                n == other.ids@.len(),
                other.wf(),
                self.wf(),
                self.gmap() == merge_map(old(self).gmap(), other.ids@, other.bufs@, k as nat),
            decreases n - k,
        {
            let id = other.ids[k];
            if !self.contains(id) {
                let buf = copy_vec(&other.bufs[k]);
                self.push_entry(id, buf);
            }
            k = k + 1;
        }
    }

    /// The gradient recorded for a tensor, read out by its identity. The
    /// caller hands in a tensor that took part in the traced computation.
    pub fn get(&self, t: &crate::tensor::Tensor<E>) -> (r: Vec<E>)
        requires
            self.wf(),
            self.has(t.id),
        ensures
            r@ == self.gmap()[t.id],
    {
        self.grad_copy(t.id)
    }
}

/// One recorded backward step. Each operation appends exactly one of these
/// during its forward pass; `backward` pops them in reverse and lets each
/// fold its output gradient into the gradients of its inputs.
pub enum BackwardOp<E> {
    /// Backward of a reduction over `axes`.
    Reduce { kind: RedKind, inp: Snap<E>, out: Snap<E>, axes: Vec<usize> },
    /// Backward of an element-wise unary operation.
    Unary { kind: UnKind<E>, inp: Snap<E>, out: Snap<E> },
    /// Backward of an element-wise binary operation.
    Binary { kind: BinKind, lhs: Snap<E>, rhs: Snap<E>, out_id: u64 },
    /// Backward of a pure view (broadcast, permute): the two tensors share
    /// their physical slots position for position, so the output gradient is
    /// added slot for slot.
    ViewBack { inp_id: u64, out_id: u64, len: usize },
    /// Backward of a reshape: the output gradient is in the input's logical
    /// order; it accumulates into the input's physical slots.
    ReshapeBack { inp: Snap<E>, out_id: u64 },
    /// Backward of a stack: slab `t` of the output gradient is added to
    /// input `t`'s gradient.
    StackBack { inp_ids: Vec<u64>, slab: usize, out_id: u64 },
    /// Backward of a 2-D pooling pass.
    PoolBack { kind: PoolKind, op: Pool2DOp, inp: Snap<E>, out: Snap<E> },
}

/// What a single recorded step needs of itself, apart from the map.
pub open spec fn op_wf<E: Scalar>(op: BackwardOp<E>) -> bool {
    match op {
        BackwardOp::Reduce { kind, inp, out, axes } => {
            &&& inp.wf()
            &&& axes_ok(axes@, inp.shape@.len() as nat)
            &&& shape_ok(reduced(inp.shape@, axes@))
            &&& out.data@.len() == numel(reduced(inp.shape@, axes@))
            &&& inp.id != out.id
        },
        BackwardOp::Unary { kind, inp, out } => {
            &&& inp.wf()
            &&& un_wf(kind)
            &&& out.data@.len() == numel(inp.shape@)
            &&& inp.id != out.id
        },
        BackwardOp::Binary { kind, lhs, rhs, out_id } => {
            &&& lhs.wf()
            &&& rhs.wf()
            &&& lhs.shape@ == rhs.shape@
            &&& lhs.id != out_id
            &&& rhs.id != out_id
            &&& (lhs.id == rhs.id ==> lhs.data@ == rhs.data@ && lhs.strides@ == rhs.strides@)
        },
        BackwardOp::ViewBack { inp_id, out_id, len } => true,
        BackwardOp::ReshapeBack { inp, out_id } => inp.wf() && inp.id != out_id,
        BackwardOp::StackBack { inp_ids, slab, out_id } => inp_ids@.len() * slab <= usize::MAX,
        BackwardOp::PoolBack { kind, op, inp, out } => {
            &&& inp.wf()
            &&& op.wf()
            &&& numel(inp.shape@) == op.batch * op.chan * op.h_in * op.w_in
            &&& out.data@.len() == op.batch * op.chan * op.h_out * op.w_out
            &&& op.batch * op.chan * op.h_out * op.w_out <= usize::MAX
            &&& inp.id != out.id
        },
    }
}

/// Ensures `id` has a buffer of length `len` in the map: one of another
/// length (which no well-formed history produces, as identities are unique)
/// is replaced by a zeroed one, a missing one is created zeroed, a fitting
/// one is kept. Every backward step settles its buffers this way before
/// reading them, which keeps the replay a total function of the map.
pub open spec fn fix_one<E: Scalar>(m: Map<u64, Seq<E>>, id: u64, len: nat) -> Map<u64, Seq<E>> {
    m.insert(
        id,
        if m.contains_key(id) && m[id].len() == len {
            m[id]
        } else {
            zero_seq::<E>(len)
        },
    )
}

/// A contiguous buffer of logical gradients folded into a physical gradient
/// buffer through the view's strides.
pub open spec fn scatter_spec<E: Scalar>(
    gl: Seq<E>,
    shape: Seq<usize>,
    strides: Seq<usize>,
    gin: Seq<E>,
) -> Seq<E> {
    acc2(gl, shape, cstrides(shape), 0, gin, strides, 0, AccOp::Accum)
}

/// The gradient maps after the slab adds of a stack backward, inputs
/// `0 .. t` done.
pub open spec fn stack_back_spec<E: Scalar>(
    ids: Seq<u64>,
    slab: nat,
    g: Seq<E>,
    m: Map<u64, Seq<E>>,
    t: nat,
) -> Map<u64, Seq<E>>
    decreases t,
{
    if t == 0 {
        m
    } else {
        let m1 = fix_one(stack_back_spec(ids, slab, g, m, (t - 1) as nat), ids[t - 1], slab);
        m1.insert(ids[t - 1], slab_add(m1[ids[t - 1]], g, (t - 1) * slab))
    }
}

/// What one recorded step does to the gradient map.
pub open spec fn replay_step<E: Scalar>(op: BackwardOp<E>, m: Map<u64, Seq<E>>) -> Map<
    u64,
    Seq<E>,
> {
    match op {
        BackwardOp::Reduce { kind, inp, out, axes } => {
            let m2 = fix_one(fix_one(m, inp.id, inp.data@.len()), out.id, out.data@.len());
            m2.insert(
                inp.id,
                reduce_bwd_spec(
                    kind,
                    inp.data@,
                    inp.shape@,
                    inp.strides@,
                    axes@,
                    out.data@,
                    m2[inp.id],
                    m2[out.id],
                ),
            )
        },
        BackwardOp::Unary { kind, inp, out } => {
            let m2 = fix_one(fix_one(m, inp.id, inp.data@.len()), out.id, out.data@.len());
            m2.insert(
                inp.id,
                scatter_spec(
                    map_un_back(kind, m2[out.id], out.data@),
                    inp.shape@,
                    inp.strides@,
                    m2[inp.id],
                ),
            )
        },
        BackwardOp::Binary { kind, lhs, rhs, out_id } => {
            let m3 = fix_one(
                fix_one(fix_one(m, lhs.id, lhs.data@.len()), rhs.id, rhs.data@.len()),
                out_id,
                numel(lhs.shape@),
            );
            let g = m3[out_id];
            let va = logical(lhs.data@, lhs.shape@, lhs.strides@);
            let vb = logical(rhs.data@, rhs.shape@, rhs.strides@);
            let m4 = m3.insert(
                lhs.id,
                scatter_spec(
                    zip_bin_back_l(kind, va, vb, g),
                    lhs.shape@,
                    lhs.strides@,
                    m3[lhs.id],
                ),
            );
            m4.insert(
                rhs.id,
                scatter_spec(
                    zip_bin_back_r(kind, va, vb, g),
                    rhs.shape@,
                    rhs.strides@,
                    m4[rhs.id],
                ),
            )
        },
        BackwardOp::ViewBack { inp_id, out_id, len } => {
            let m2 = fix_one(fix_one(m, inp_id, len as nat), out_id, len as nat);
            m2.insert(inp_id, add_seq(m2[inp_id], m2[out_id]))
        },
        BackwardOp::ReshapeBack { inp, out_id } => {
            let m2 = fix_one(fix_one(m, inp.id, inp.data@.len()), out_id, numel(inp.shape@));
            m2.insert(
                inp.id,
                scatter_spec(m2[out_id], inp.shape@, inp.strides@, m2[inp.id]),
            )
        },
        BackwardOp::StackBack { inp_ids, slab, out_id } => {
            let m1 = fix_one(m, out_id, (inp_ids@.len() * slab) as nat);
            stack_back_spec(inp_ids@, slab as nat, m1[out_id], m1, inp_ids@.len())
        },
        BackwardOp::PoolBack { kind, op, inp, out } => {
            let m2 = fix_one(fix_one(m, inp.id, inp.data@.len()), out.id, out.data@.len());
            let vin = logical(inp.data@, inp.shape@, inp.strides@);
            let gl = pool_bwd_acc(
                vin,
                out.data@,
                m2[out.id],
                op,
                kind,
                zero_seq::<E>(numel(inp.shape@)),
                ((op.batch * op.chan * op.h_out * op.w_out) * (op.kernel * op.kernel)) as nat,
            );
            m2.insert(
                inp.id,
                scatter_spec(gl, inp.shape@, inp.strides@, m2[inp.id]),
            )
        },
    }
}

/// The gradient map after the recorded steps run in reverse order: the last
/// step first, the first step last.
pub open spec fn replay<E: Scalar>(ops: Seq<BackwardOp<E>>, m: Map<u64, Seq<E>>) -> Map<
    u64,
    Seq<E>,
>
    decreases ops.len(),
{
    if ops.len() == 0 {
        m
    } else {
        replay(ops.drop_last(), replay_step(ops.last(), m))
    }
}

/// Unfolding `replay` from the front: the first recorded step is the last
/// one applied.
pub proof fn lemma_replay_front<E: Scalar>(ops: Seq<BackwardOp<E>>, m: Map<u64, Seq<E>>)
    requires
        ops.len() > 0,
    ensures
        replay(ops, m) == replay_step(ops[0], replay(ops.skip(1), m)),
    decreases ops.len(),
{
    if ops.len() == 1 {
        assert(ops.drop_last().len() == 0);
        assert(ops.skip(1).len() == 0);
        assert(ops[0] == ops.last());
        assert(replay(ops.skip(1), m) == m);
        assert(replay(ops.drop_last(), replay_step(ops.last(), m)) == replay_step(
            ops.last(),
            m,
        ));
    } else {
        let m1 = replay_step(ops.last(), m);
        lemma_replay_front(ops.drop_last(), m1);
        assert(ops.drop_last()[0] == ops[0]);
        assert(ops.drop_last().skip(1) =~= ops.skip(1).drop_last());
        assert(ops.skip(1).last() == ops.last());
    }
}

/// An active recording: the backward steps in forward order, and the
/// gradient buffers of every tensor they mention.
pub struct OwnedTape<E> {
    pub ops: Vec<BackwardOp<E>>,
    pub grads: Gradients<E>,
}

impl<E: Scalar> OwnedTape<E> {
    pub open spec fn wf(self) -> bool {
        &&& self.grads.wf()
        &&& forall|i: int| 0 <= i < self.ops@.len() ==> op_wf(#[trigger] self.ops@[i])
    }

    pub fn new_empty() -> (r: OwnedTape<E>)
        ensures
            r.wf(),
            r.ops@.len() == 0,
            r.grads.gmap() == Map::<u64, Seq<E>>::empty(),
    {
        OwnedTape { ops: Vec::new(), grads: Gradients::new_empty() }
    }
}

/// Runs one recorded backward step against the gradient map.
pub fn run_step<E: Scalar>(op: &BackwardOp<E>, g: &mut Gradients<E>)
    requires
        old(g).wf(),
        op_wf(*op),
    ensures
        final(g).wf(),
        final(g).gmap() == replay_step(*op, old(g).gmap()),
{
    match op {
        BackwardOp::Reduce { kind, inp, out, axes } => {
            g.alloc_sized(inp.id, inp.data.len());
            g.alloc_sized(out.id, out.data.len());
            let gout = g.grad_copy(out.id);
            let gin = g.grad_copy(inp.id);
            let nb = reduce_bwd_vec(
                *kind,
                &inp.data,
                &inp.shape,
                &inp.strides,
                axes,
                &out.data,
                gin,
                &gout,
            );
            g.set_buf(inp.id, nb);
        },
        BackwardOp::Unary { kind, inp, out } => {
            g.alloc_sized(inp.id, inp.data.len());
            g.alloc_sized(out.id, out.data.len());
            let gout = g.grad_copy(out.id);
            let gl = un_bwd_vec(*kind, &gout, &out.data);
            let mut gi = g.grad_copy(inp.id);
            scatter_accum(&gl, &inp.shape, &inp.strides, &mut gi);
            g.set_buf(inp.id, gi);
        },
        BackwardOp::Binary { kind, lhs, rhs, out_id } => {
            g.alloc_sized(lhs.id, lhs.data.len());
            g.alloc_sized(rhs.id, rhs.data.len());
            let nm = crate::shapes::numel_of(&lhs.shape);
            g.alloc_sized(*out_id, nm);
            let gout = g.grad_copy(*out_id);
            let va = materialize(&lhs.data, &lhs.shape, &lhs.strides);
            let vb = materialize(&rhs.data, &rhs.shape, &rhs.strides);
            let gla = bin_bwd_l_vec(*kind, &va, &vb, &gout);
            let glb = bin_bwd_r_vec(*kind, &va, &vb, &gout);
            let mut ga = g.grad_copy(lhs.id);
            scatter_accum(&gla, &lhs.shape, &lhs.strides, &mut ga);
            g.set_buf(lhs.id, ga);
            let mut gb = g.grad_copy(rhs.id);
            scatter_accum(&glb, &rhs.shape, &rhs.strides, &mut gb);
            g.set_buf(rhs.id, gb);
        },
        BackwardOp::ViewBack { inp_id, out_id, len } => {
            g.alloc_sized(*inp_id, *len);
            g.alloc_sized(*out_id, *len);
            let go = g.grad_copy(*out_id);
            let gi = g.grad_copy(*inp_id);
            let nb = add_vec(&gi, &go);
            g.set_buf(*inp_id, nb);
        },
        BackwardOp::ReshapeBack { inp, out_id } => {
            g.alloc_sized(inp.id, inp.data.len());
            let nm = crate::shapes::numel_of(&inp.shape);
            g.alloc_sized(*out_id, nm);
            let go = g.grad_copy(*out_id);
            let mut gi = g.grad_copy(inp.id);
            scatter_accum(&go, &inp.shape, &inp.strides, &mut gi);
            g.set_buf(inp.id, gi);
        },
        BackwardOp::PoolBack { kind, op, inp, out } => {
            g.alloc_sized(inp.id, inp.data.len());
            g.alloc_sized(out.id, out.data.len());
            let gout = g.grad_copy(out.id);
            let vin = materialize(&inp.data, &inp.shape, &inp.strides);
            let n_in = crate::shapes::numel_of(&inp.shape);
            let gl0 = zeros_vec::<E>(n_in);
            let gl = pool_bwd_vec(*kind, &vin, &out.data, &gout, *op, gl0);
            let mut gi = g.grad_copy(inp.id);
            scatter_accum(&gl, &inp.shape, &inp.strides, &mut gi);
            g.set_buf(inp.id, gi);
        },
        BackwardOp::StackBack { inp_ids, slab, out_id } => {
            let n = inp_ids.len();
            let sl = *slab;
            assert(n * sl <= usize::MAX);
            g.alloc_sized(*out_id, n * sl);
            let go = g.grad_copy(*out_id);
            let gol = go.len();
            let ghost m1 = fix_one(old(g).gmap(), *out_id, (n * sl) as nat);
            let mut t: usize = 0;
            while t < n
                invariant
                    t <= n,
                    n == inp_ids@.len(),
                    go@.len() == n * sl,
                    gol == go@.len(),
                    go@ == m1[*out_id],
                    g.wf(),
                    g.gmap() == stack_back_spec(inp_ids@, sl as nat, go@, m1, t as nat),
                decreases n - t,
            {
                let id_t = inp_ids[t];
                g.alloc_sized(id_t, sl);
                proof {
                    assert((t + 1) * sl <= n * sl) by (nonlinear_arith)
                        requires
                            t + 1 <= n,
                            sl >= 0,
                    ;
                    assert(t * sl <= (t + 1) * sl) by (nonlinear_arith)
                        requires
                            t >= 0,
                            sl >= 0,
                    ;
                    assert(t * sl + sl == (t + 1) * sl) by (nonlinear_arith);
                    assert(t * sl <= gol);
                }
                let gb = g.grad_copy(id_t);
                let nb = slab_add_vec(&gb, &go, t * sl);
                g.set_buf(id_t, nb);
                t = t + 1;
            }
        },
    }
}

/// The recording state of a tensor: either detached, or carrying the tape.
pub enum Tape<E> {
    Untraced,
    Traced(OwnedTape<E>),
}

impl<E: Scalar> Tape<E> {
    pub open spec fn wf(self) -> bool {
        match self {
            Tape::Untraced => true,
            Tape::Traced(t) => t.wf(),
        }
    }

    /// Registers a gradient buffer for `id`, of length `len`, when
    /// recording.
    pub fn alloc_for(&mut self, id: u64, len: usize)
        requires
            old(self).wf(),
        ensures
            final(self).wf(),
            *old(self) is Untraced ==> *final(self) == *old(self),
            *old(self) is Traced ==> *final(self) is Traced && (*final(self))->0.ops@ == (*old(self))->0.ops@ && (*final(self))->0.grads.gmap() == fix_one(
                (*old(self))->0.grads.gmap(),
                id,
                len as nat,
            ),
    {
        match self {
            Tape::Untraced => {},
            Tape::Traced(t) => {
                t.grads.alloc_sized(id, len);
            },
        }
    }

    /// Appends one backward step, when recording.
    pub fn record(&mut self, op: BackwardOp<E>)
        requires
            old(self).wf(),
            op_wf(op),
        ensures
            final(self).wf(),
            *old(self) is Untraced ==> *final(self) == *old(self),
            *old(self) is Traced ==> *final(self) is Traced && (*final(self))->0.ops@ == (*old(self))->0.ops@.push(op) && (*final(self))->0.grads == (*old(self))->0.grads,
    {
        match self {
            Tape::Untraced => {},
            Tape::Traced(t) => {
                t.ops.push(op);
            },
        }
    }

    /// Combines the recordings of two operands into one: the left tape's
    /// steps come first, and its gradient buffers win where both registered
    /// the same identity.
    pub fn merge(self, other: Tape<E>) -> (r: Tape<E>)
        requires
            self.wf(),
            other.wf(),
        ensures
            r.wf(),
            self is Untraced ==> r == other,
            self is Traced && other is Untraced ==> r == self,
            self is Traced && other is Traced ==> {
                &&& r is Traced
                &&& r->0.ops@ == self->0.ops@ + other->0.ops@
                &&& r->0.grads.gmap() == merge_map(
                    self->0.grads.gmap(),
                    other->0.grads.ids@,
                    other->0.grads.bufs@,
                    other->0.grads.ids@.len(),
                )
            },
    {
        match self {
            Tape::Untraced => other,
            Tape::Traced(t1) => {
                match other {
                    Tape::Untraced => Tape::Traced(t1),
                    Tape::Traced(t2) => {
                        let mut t1 = t1;
                        let OwnedTape { ops: mut ops2, grads: g2 } = t2;
                        t1.ops.append(&mut ops2);
                        t1.grads.merge_from(g2);
                        Tape::Traced(t1)
                    },
                }
            },
        }
    }
}

} // verus!
