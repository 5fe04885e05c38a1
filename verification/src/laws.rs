use vstd::prelude::*;
use crate::grid::{comb, lemma_acc2_const_src, lemma_logical_contiguous, one_seq, zero_seq,
    AccOp};
use crate::kernels::{reduce_bwd_spec, RedKind};
use crate::ops::{last_op, threads_two};
use crate::scalar::{zero_add_one_is_one, Scalar};
use crate::shapes::{ax_has, axes_ok, cstrides, expanded, numel, reduced, shape_ok};
use crate::tape::{fix_one, replay, replay_step, BackwardOp};
use crate::tensor::{Cpu, Tensor};

verus! {

/// Forward then backward on the full sum of a contiguous, freshly traced
/// tensor leaves a gradient of all ones for it: the sum's backward step
/// folds the seeded unit gradient once into every input slot of the zeroed
/// buffer, and the element's zero is an additive identity on the unit.
///
/// `y` is what the sum reduction over every axis returned for `t`, and `g`
/// is what `backward` on `y` returned; both are pinned here exactly as the
/// contracts of `try_sum` and `backward` state them. A broadcast input
/// (zero strides) is left out: its replicated positions share a physical
/// slot, which then accumulates once per replica rather than once.
pub proof fn law_sum_backward_ones<E: Scalar>(
    t: Tensor<E>,
    y: Tensor<E>,
    dev0: Cpu,
    axes: Seq<usize>,
    g: Map<u64, Seq<E>>,
)
    requires
        zero_add_one_is_one::<E>(),
        t.wf(),
        t.strides@ == cstrides(t.shape@),
        t.data@.len() == numel(t.shape@),
        t.tape is Traced,
        t.tape->0.ops@.len() == 0,
        t.tape->0.grads.gmap() == Map::<u64, Seq<E>>::empty(),
        axes_ok(axes, t.shape@.len() as nat),
        forall|j: int| 0 <= j < t.shape@.len() ==> ax_has(axes, j),
        t.id < dev0.next_id,
        // what `try_sum` ensured of its output
        y.id == dev0.next_id,
        y.shape@ == reduced(t.shape@, axes),
        y.data@.len() == numel(y.shape@),
        threads_two(t.tape, y.tape, t.id, t.data@.len(), y.id, numel(y.shape@)),
        last_op(y.tape) matches BackwardOp::Reduce { kind, inp, out, axes: a2 } && kind
            == RedKind::SumRed && inp.id == t.id && inp.data@ == t.data@ && inp.shape@
            == t.shape@ && inp.strides@ == t.strides@ && out.id == y.id && out.data@
            == y.data@ && a2@ == axes,
        // what `backward` ensured of its result
        g == replay(
            y.tape->0.ops@,
            y.tape->0.grads.gmap().insert(y.id, one_seq::<E>(y.data@.len())),
        ),
    ensures
        g.contains_key(t.id),
        g[t.id] == one_seq::<E>(t.data@.len()),
{
    crate::ops::lemma_reduced_all(t.shape@, axes);
    assert(numel(y.shape@) == 1);
    let ops = y.tape->0.ops@;
    assert(ops.len() == 1);
    let op = ops.last();
    assert(ops.drop_last() =~= Seq::<BackwardOp<E>>::empty());
    let len = t.data@.len();
    let m0 = y.tape->0.grads.gmap().insert(y.id, one_seq::<E>(1));
    assert(replay(ops, m0) == replay(ops.drop_last(), replay_step(op, m0)));
    assert(replay(ops.drop_last(), replay_step(op, m0)) == replay_step(op, m0));
    // the gradient buffers the forward pass registered
    let me = Map::<u64, Seq<E>>::empty();
    assert(y.tape->0.grads.gmap() == fix_one(fix_one(me, t.id, len), y.id, 1nat));
    let mf = fix_one(fix_one(me, t.id, len), y.id, 1nat);
    assert(mf[t.id] == zero_seq::<E>(len));
    assert(mf[y.id] == zero_seq::<E>(1));
    assert(m0[t.id] == zero_seq::<E>(len));
    assert(m0[y.id] == one_seq::<E>(1));
    // the step settles its buffers, which are already in place
    let inp = op->Reduce_inp;
    let ou = op->Reduce_out;
    let m2 = fix_one(fix_one(m0, inp.id, inp.data@.len()), ou.id, ou.data@.len());
    assert(m2 =~= m0);
    // the sum backward folds the broadcast unit into every slot
    let estr = expanded(t.shape@, axes, cstrides(reduced(t.shape@, axes)));
    assert forall|i: int| 0 <= i < estr.len() implies estr[i] == 0 by {
        assert(ax_has(axes, i));
    }
    assert(estr.len() == t.shape@.len());
    lemma_acc2_const_src(
        one_seq::<E>(1),
        t.shape@,
        estr,
        0,
        zero_seq::<E>(len),
        0,
        AccOp::Accum,
    );
    let folded = reduce_bwd_spec(
        RedKind::SumRed,
        inp.data@,
        inp.shape@,
        inp.strides@,
        op->Reduce_axes@,
        ou.data@,
        m2[inp.id],
        m2[ou.id],
    );
    assert(folded =~= one_seq::<E>(len)) by {
        assert forall|j: int| 0 <= j < len implies folded[j] == one_seq::<E>(len)[j] by {
            assert(folded[j] == comb(
                AccOp::Accum,
                zero_seq::<E>(len)[j],
                one_seq::<E>(1)[0],
            ));
        }
    }
    assert(replay_step(op, m0) == m2.insert(inp.id, folded));
    assert(g[t.id] == one_seq::<E>(len));
}

/// Reshaping and then reshaping back is the identity: the logical elements
/// and the shape come back unchanged, and for a contiguous input even the
/// buffer is bit-for-bit the one it started from.
///
/// `y` is what reshaping `t` to some shape returned, and `z` is what
/// reshaping `y` back to `t`'s shape returned, each pinned as the contract
/// of `try_reshape` states them.
pub proof fn law_reshape_round_trip<E: Scalar>(t: Tensor<E>, y: Tensor<E>, z: Tensor<E>)
    requires
        t.wf(),
        shape_ok(y.shape@),
        numel(y.shape@) == numel(t.shape@),
        // what the two reshapes ensured
        y.data@ == t.elems(),
        y.strides@ == cstrides(y.shape@),
        y.data@.len() == numel(y.shape@),
        z.data@ == y.elems(),
        z.shape@ == t.shape@,
        z.strides@ == cstrides(t.shape@),
        z.data@.len() == numel(t.shape@),
    ensures
        z.elems() == t.elems(),
        z.shape@ == t.shape@,
        t.strides@ == cstrides(t.shape@) && t.data@.len() == numel(t.shape@) ==> z.data@
            == t.data@,
{
    lemma_logical_contiguous(y.data@, y.shape@);
    lemma_logical_contiguous(z.data@, z.shape@);
    if t.strides@ == cstrides(t.shape@) && t.data@.len() == numel(t.shape@) {
        lemma_logical_contiguous(t.data@, t.shape@);
    }
}

/// Pooling with a unit kernel, unit stride and no padding is the identity
/// forward: every window holds exactly its own position, so the extrema
/// return each element unchanged, and the average returns it divided by
/// one after folding onto zero — the exact value is stated for each family.
pub proof fn law_pool_unit_window_identity<E: Scalar>(v: Seq<E>, o: crate::pool::Pool2DOp)
    requires
        o.kernel == 1,
        o.stride == 1,
        o.padding == 0,
        o.wf(),
        v.len() == o.batch * o.chan * o.h_in * o.w_in,
    ensures
        crate::pool::pool_out(v, o, crate::pool::PoolKind::MaxPool) == v,
        crate::pool::pool_out(v, o, crate::pool::PoolKind::MinPool) == v,
        crate::pool::pool_out(v, o, crate::pool::PoolKind::AvgPool) == Seq::new(
            v.len(),
            |j: int| E::sp_div_n(E::sp_add(E::sp_zero(), v[j]), 1),
        ),
{
    let h = o.h_in as int;
    let w = o.w_in as int;
    let bc = o.batch * o.chan;
    vstd::arithmetic::div_mod::lemma_fundamental_div_mod(h - 1, 1);
    vstd::arithmetic::div_mod::lemma_fundamental_div_mod(w - 1, 1);
    assert(o.h_out as int == h);
    assert(o.w_out as int == w);
    let hw = (o.h_out * o.w_out) as int;
    assert(hw == h * w);
    assert(hw >= 1) by (nonlinear_arith)
        requires
            h >= 1,
            w >= 1,
            hw == h * w,
    ;
    assert((bc as int) * hw == o.batch * o.chan * o.h_in * o.w_in) by (nonlinear_arith)
        requires
            hw == (o.h_in as int) * (o.w_in as int),
            bc == o.batch * o.chan,
    ;
    assert((o.kernel * o.kernel) as nat == 1);
    assert forall|j: int| 0 <= j < v.len() implies {
        &&& crate::pool::pool_out_at(v, o, crate::pool::PoolKind::MaxPool, j) == v[j]
        &&& crate::pool::pool_out_at(v, o, crate::pool::PoolKind::MinPool, j) == v[j]
        &&& crate::pool::pool_out_at(v, o, crate::pool::PoolKind::AvgPool, j) == E::sp_div_n(
            E::sp_add(E::sp_zero(), v[j]),
            1,
        )
    } by {
        let nc = j / hw;
        let rest = j % hw;
        let oh = rest / w;
        let ow = rest % w;
        vstd::arithmetic::div_mod::lemma_fundamental_div_mod(j, hw);
        assert(0 <= nc && nc < bc) by (nonlinear_arith)
            requires
                j < (bc as int) * hw,
                j >= 0,
                hw >= 1,
                j == hw * nc + rest,
                0 <= rest < hw,
        ;
        vstd::arithmetic::div_mod::lemma_fundamental_div_mod(rest, w);
        assert(0 <= oh && oh < h) by (nonlinear_arith)
            requires
                rest < h * w,
                rest >= 0,
                w >= 1,
                rest == w * oh + ow,
                0 <= ow < w,
        ;
        vstd::arithmetic::div_mod::lemma_fundamental_div_mod(0, 1);
        assert(crate::pool::in_b(o, oh, ow, 0, 0));
        let idx = crate::pool::widx(o, nc, oh, ow, 0, 0);
        assert(idx == j) by (nonlinear_arith)
            requires
                idx == (nc * h + oh) * w + ow,
                j == hw * nc + rest,
                rest == w * oh + ow,
                hw == h * w,
        ;
        let wv = crate::pool::win_vals(v, o, nc, oh, ow, 1nat);
        assert(crate::pool::win_vals(v, o, nc, oh, ow, 0nat) =~= Seq::<E>::empty());
        assert(wv =~= seq![v[j]]);
        assert(wv.len() == 1);
        assert(crate::pool::fold_ext(wv, AccOp::Larger) == wv[0]);
        assert(crate::pool::fold_ext(wv, AccOp::Smaller) == wv[0]);
        assert(wv.drop_last() =~= Seq::<E>::empty());
        assert(crate::pool::fold_add(Seq::<E>::empty()) == E::sp_zero());
        assert(wv.last() == v[j]);
        assert(crate::pool::fold_add(wv) == E::sp_add(E::sp_zero(), v[j]));
    }
    assert(crate::pool::pool_out(v, o, crate::pool::PoolKind::MaxPool) =~= v);
    assert(crate::pool::pool_out(v, o, crate::pool::PoolKind::MinPool) =~= v);
    assert(crate::pool::pool_out(v, o, crate::pool::PoolKind::AvgPool) =~= Seq::new(
        v.len(),
        |j: int| E::sp_div_n(E::sp_add(E::sp_zero(), v[j]), 1),
    ));
}

/// The backward of pooling with a unit kernel, unit stride and no padding
/// is the identity on the output gradient, up to the zero seed each slot
/// folds onto: slot `j` of the input gradient receives exactly `g[j]` (the
/// average family first divides it by one). For the extrema this needs each
/// element to equal itself numerically, which an element without a value
/// unequal to itself (such as an IEEE quiet non-number) always grants.
pub proof fn law_pool_unit_window_backward<E: Scalar>(
    v: Seq<E>,
    g: Seq<E>,
    o: crate::pool::Pool2DOp,
)
    requires
        o.kernel == 1,
        o.stride == 1,
        o.padding == 0,
        o.wf(),
        v.len() == o.batch * o.chan * o.h_in * o.w_in,
        g.len() == v.len(),
        forall|j: int| 0 <= j < v.len() ==> E::sp_eq(v[j], v[j]),
    ensures
        crate::pool::pool_bwd_acc(
            v,
            v,
            g,
            o,
            crate::pool::PoolKind::MaxPool,
            zero_seq::<E>(v.len()),
            ((o.batch * o.chan * o.h_out * o.w_out) * (o.kernel * o.kernel)) as nat,
        ) == Seq::new(v.len(), |j: int| E::sp_add(E::sp_zero(), g[j])),
        crate::pool::pool_bwd_acc(
            v,
            v,
            g,
            o,
            crate::pool::PoolKind::MinPool,
            zero_seq::<E>(v.len()),
            ((o.batch * o.chan * o.h_out * o.w_out) * (o.kernel * o.kernel)) as nat,
        ) == Seq::new(v.len(), |j: int| E::sp_add(E::sp_zero(), g[j])),
        crate::pool::pool_bwd_acc(
            v,
            v,
            g,
            o,
            crate::pool::PoolKind::AvgPool,
            zero_seq::<E>(v.len()),
            ((o.batch * o.chan * o.h_out * o.w_out) * (o.kernel * o.kernel)) as nat,
        ) == Seq::new(v.len(), |j: int| E::sp_add(E::sp_zero(), E::sp_div_n(g[j], 1))),
{
    let h = o.h_in as int;
    let w = o.w_in as int;
    vstd::arithmetic::div_mod::lemma_fundamental_div_mod(h - 1, 1);
    vstd::arithmetic::div_mod::lemma_fundamental_div_mod(w - 1, 1);
    assert(o.h_out as int == h);
    assert(o.w_out as int == w);
    let total = o.batch * o.chan * o.h_out * o.w_out;
    assert(total == v.len());
    assert((total as int) * ((o.kernel * o.kernel) as int) == total as int);
    lemma_pool_unit_bwd_steps(v, g, o, crate::pool::PoolKind::MaxPool, v.len());
    lemma_pool_unit_bwd_steps(v, g, o, crate::pool::PoolKind::MinPool, v.len());
    lemma_pool_unit_bwd_steps(v, g, o, crate::pool::PoolKind::AvgPool, v.len());
    assert(crate::pool::pool_bwd_acc(
        v,
        v,
        g,
        o,
        crate::pool::PoolKind::MaxPool,
        zero_seq::<E>(v.len()),
        v.len(),
    ) =~= Seq::new(v.len(), |j: int| E::sp_add(E::sp_zero(), g[j])));
    assert(crate::pool::pool_bwd_acc(
        v,
        v,
        g,
        o,
        crate::pool::PoolKind::MinPool,
        zero_seq::<E>(v.len()),
        v.len(),
    ) =~= Seq::new(v.len(), |j: int| E::sp_add(E::sp_zero(), g[j])));
    assert(crate::pool::pool_bwd_acc(
        v,
        v,
        g,
        o,
        crate::pool::PoolKind::AvgPool,
        zero_seq::<E>(v.len()),
        v.len(),
    ) =~= Seq::new(v.len(), |j: int| E::sp_add(E::sp_zero(), E::sp_div_n(g[j], 1))));
}

/// Helper for the unit-window backward: the first `c` steps have handed
/// their gradient to the first `c` slots.
proof fn lemma_pool_unit_bwd_steps<E: Scalar>(
    v: Seq<E>,
    g: Seq<E>,
    o: crate::pool::Pool2DOp,
    kind: crate::pool::PoolKind,
    c: nat,
)
    requires
        o.kernel == 1,
        o.stride == 1,
        o.padding == 0,
        o.wf(),
        v.len() == o.batch * o.chan * o.h_in * o.w_in,
        g.len() == v.len(),
        c <= v.len(),
        forall|j: int| 0 <= j < v.len() ==> E::sp_eq(v[j], v[j]),
    ensures
        crate::pool::pool_bwd_acc(v, v, g, o, kind, zero_seq::<E>(v.len()), c) == Seq::new(
            v.len(),
            |j: int|
                if j < c {
                    match kind {
                        crate::pool::PoolKind::AvgPool => E::sp_add(
                            E::sp_zero(),
                            E::sp_div_n(g[j], 1),
                        ),
                        _ => E::sp_add(E::sp_zero(), g[j]),
                    }
                } else {
                    E::sp_zero()
                },
        ),
    decreases c,
{
    let h = o.h_in as int;
    let w = o.w_in as int;
    vstd::arithmetic::div_mod::lemma_fundamental_div_mod(h - 1, 1);
    vstd::arithmetic::div_mod::lemma_fundamental_div_mod(w - 1, 1);
    assert(o.h_out as int == h);
    assert(o.w_out as int == w);
    if c == 0 {
        assert(crate::pool::pool_bwd_acc(v, v, g, o, kind, zero_seq::<E>(v.len()), 0nat)
            =~= Seq::new(
            v.len(),
            |j: int|
                if j < 0 {
                    match kind {
                        crate::pool::PoolKind::AvgPool => E::sp_add(
                            E::sp_zero(),
                            E::sp_div_n(g[j], 1),
                        ),
                        _ => E::sp_add(E::sp_zero(), g[j]),
                    }
                } else {
                    E::sp_zero()
                },
        ));
    } else {
        lemma_pool_unit_bwd_steps(v, g, o, kind, (c - 1) as nat);
        let prev = crate::pool::pool_bwd_acc(
            v,
            v,
            g,
            o,
            kind,
            zero_seq::<E>(v.len()),
            (c - 1) as nat,
        );
        let kk = (o.kernel * o.kernel) as int;
        assert(kk == 1);
        vstd::arithmetic::div_mod::lemma_fundamental_div_mod_converse(
            (c - 1) as int,
            1,
            (c - 1) as int,
            0,
        );
        let j = (c - 1) as int;
        let hw = (o.h_out * o.w_out) as int;
        assert(hw == h * w);
        assert(hw >= 1) by (nonlinear_arith)
            requires
                h >= 1,
                w >= 1,
                hw == h * w,
        ;
        let bc = o.batch * o.chan;
        assert((bc as int) * hw == v.len() as int) by (nonlinear_arith)
            requires
                hw == (o.h_in as int) * (o.w_in as int),
                bc == o.batch * o.chan,
                v.len() == o.batch * o.chan * o.h_in * o.w_in,
        ;
        let nc = j / hw;
        let rest = j % hw;
        let oh = rest / w;
        let ow = rest % w;
        vstd::arithmetic::div_mod::lemma_fundamental_div_mod(j, hw);
        assert(0 <= nc && nc < bc) by (nonlinear_arith)
            requires
                j < (bc as int) * hw,
                j >= 0,
                hw >= 1,
                j == hw * nc + rest,
                0 <= rest < hw,
        ;
        vstd::arithmetic::div_mod::lemma_fundamental_div_mod(rest, w);
        assert(0 <= oh && oh < h) by (nonlinear_arith)
            requires
                rest < h * w,
                rest >= 0,
                w >= 1,
                rest == w * oh + ow,
                0 <= ow < w,
        ;
        vstd::arithmetic::div_mod::lemma_fundamental_div_mod(0, 1);
        assert(crate::pool::in_b(o, oh, ow, 0, 0));
        let idx = crate::pool::widx(o, nc, oh, ow, 0, 0);
        assert(idx == j) by (nonlinear_arith)
            requires
                idx == (nc * h + oh) * w + ow,
                j == hw * nc + rest,
                rest == w * oh + ow,
                hw == h * w,
        ;
        assert(prev[j] == E::sp_zero());
        assert(E::sp_eq(v[j], v[j]));
        assert(crate::pool::pool_bwd_acc(v, v, g, o, kind, zero_seq::<E>(v.len()), c)
            =~= Seq::new(
            v.len(),
            |q: int|
                if q < c {
                    match kind {
                        crate::pool::PoolKind::AvgPool => E::sp_add(
                            E::sp_zero(),
                            E::sp_div_n(g[q], 1),
                        ),
                        _ => E::sp_add(E::sp_zero(), g[q]),
                    }
                } else {
                    E::sp_zero()
                },
        ));
    }
}

/// The element `x` folded onto zero `n` times over: what `n` replicas of
/// one value contribute to the slot they share.
pub open spec fn rep_add<E: Scalar>(x: E, n: nat) -> E
    decreases n,
{
    if n == 0 {
        E::sp_zero()
    } else {
        E::sp_add(rep_add(x, (n - 1) as nat), x)
    }
}

/// Removing the new leading axis again leaves the original shape, and the
/// expanded strides are the original ones behind a zero.
proof fn lemma_front_axis(s: Seq<usize>, k: usize, kstr: Seq<usize>)
    requires
        kstr.len() == s.len(),
    ensures
        reduced(seq![k] + s, seq![0usize]) == s,
        expanded(seq![k] + s, seq![0usize], kstr) == seq![0usize] + kstr,
{
    let dst = seq![k] + s;
    let ax = seq![0usize];
    assert(ax[0] == 0usize);
    assert(ax_has(ax, 0));
    assert forall|i: int| 1 <= i <= dst.len() implies crate::shapes::kept_up_to(dst, ax, i)
        =~= s.take(i - 1) by {
        lemma_kept_front_upto(s, k, i);
    }
    assert(s.take(s.len() as int) =~= s);
    assert(reduced(dst, ax) =~= s);
    assert forall|i: int| 0 <= i < dst.len() implies expanded(dst, ax, kstr)[i] == (seq![
        0usize,
    ] + kstr)[i] by {
        if i == 0 {
        } else {
            assert(!ax_has(ax, i)) by {
                if ax_has(ax, i) {
                    let q = choose|q: int| 0 <= q < ax.len() && ax[q] == i;
                    assert(ax[0] == 0usize);
                }
            }
            lemma_kept_front_upto(s, k, i);
            assert(crate::shapes::kept_up_to(dst, ax, i).len() == i - 1);
        }
    }
    assert(expanded(dst, ax, kstr) =~= seq![0usize] + kstr);
}

/// Helper for `lemma_front_axis`.
proof fn lemma_kept_front_upto(s: Seq<usize>, k: usize, i: int)
    requires
        1 <= i <= s.len() + 1,
    ensures
        crate::shapes::kept_up_to(seq![k] + s, seq![0usize], i) == s.take(i - 1),
    decreases i,
{
    let dst = seq![k] + s;
    let ax = seq![0usize];
    assert(ax[0] == 0usize);
    if i == 1 {
        assert(ax_has(ax, 0));
        assert(crate::shapes::kept_up_to(dst, ax, 1) == crate::shapes::kept_up_to(dst, ax, 0));
        assert(crate::shapes::kept_up_to(dst, ax, 0) =~= s.take(0));
    } else {
        lemma_kept_front_upto(s, k, i - 1);
        assert(!ax_has(ax, i - 1)) by {
            if ax_has(ax, i - 1) {
                let q = choose|q: int| 0 <= q < ax.len() && ax[q] == i - 1;
            }
        }
        assert(dst[i - 1] == s[i - 2]);
        assert(crate::shapes::kept_up_to(dst, ax, i) =~= s.take(i - 1));
    }
}

/// Helper for the broadcast-and-sum law: after `r` of the `k` replicas have
/// folded in, each slot holds its element folded onto zero `r` times over.
proof fn lemma_bcast_sum_rows<E: Scalar>(
    vy: Seq<E>,
    te: Seq<E>,
    s: Seq<usize>,
    k: usize,
    r: nat,
)
    requires
        crate::shapes::shape_ok(s),
        crate::shapes::shape_ok(seq![k] + s),
        te.len() == numel(s),
        vy.len() == (k as nat) * numel(s),
        forall|q: int| 0 <= q < vy.len() ==> vy[q] == te[q % (numel(s) as int)],
        r <= k,
        numel(s) >= 1,
    ensures
        crate::grid::acc2_rows(
            vy,
            seq![k] + s,
            cstrides(seq![k] + s),
            0,
            zero_seq::<E>(numel(s)),
            seq![0usize] + cstrides(s),
            0,
            AccOp::Accum,
            r,
        ) == Seq::new(numel(s), |j: int| rep_add::<E>(te[j], r)),
    decreases r,
{
    let dst = seq![k] + s;
    let m = numel(s);
    let cd = cstrides(dst);
    let ed = seq![0usize] + cstrides(s);
    assert(dst.skip(1) =~= s);
    crate::shapes::lemma_cstrides_skip(dst);
    assert(cd.skip(1) == cstrides(s));
    assert(ed.skip(1) =~= cstrides(s));
    assert(cd[0] as nat == m);
    assert(ed[0] == 0usize);
    if r == 0 {
        assert(crate::grid::acc2_rows(vy, dst, cd, 0, zero_seq::<E>(m), ed, 0, AccOp::Accum, 0nat)
            =~= Seq::new(m, |j: int| rep_add::<E>(te[j], 0nat)));
    } else {
        lemma_bcast_sum_rows(vy, te, s, k, (r - 1) as nat);
        let prev = crate::grid::acc2_rows(
            vy,
            dst,
            cd,
            0,
            zero_seq::<E>(m),
            ed,
            0,
            AccOp::Accum,
            (r - 1) as nat,
        );
        assert((r - 1) * (cd[0] as int) == (r - 1) * (m as int)) by (nonlinear_arith)
            requires
                cd[0] as nat == m,
        ;
        assert((r - 1) * (ed[0] as int) == 0) by (nonlinear_arith)
            requires
                ed[0] == 0,
        ;
        assert(0 <= (r - 1) * (m as int) && (r - 1) * (m as int) + m <= (k as nat) * m)
            by (nonlinear_arith)
            requires
                1 <= r <= k,
                m >= 1,
        ;
        crate::grid::lemma_acc2_copy_contig(vy, s, (r - 1) * (m as int), prev, 0, AccOp::Accum);
        assert forall|j: int| 0 <= j < m implies vy[(r - 1) * (m as int) + j] == te[j] by {
            vstd::arithmetic::div_mod::lemma_fundamental_div_mod_converse(
                (r - 1) * (m as int) + j,
                m as int,
                r - 1,
                j,
            );
        }
        assert(crate::grid::acc2_rows(vy, dst, cd, 0, zero_seq::<E>(m), ed, 0, AccOp::Accum, r)
            =~= Seq::new(m, |j: int| rep_add::<E>(te[j], r)));
    }
}

/// Broadcasting over a new leading axis of size `k` and summing that axis
/// back folds each element onto zero `k` times over: the sum is the input
/// "times `k`", stated as the fold the kernels compute, position for
/// position. The division by `k` that closes the identity lives on the
/// inexact elements and stands in the tests.
///
/// `y` is what broadcasting `t` to the shape with the new leading axis
/// returned, and `z` is what summing `y` over that axis returned, each
/// pinned as the contracts of `try_broadcast` and `try_sum` state them.
pub proof fn law_broadcast_sum_repeats<E: Scalar>(
    t: Tensor<E>,
    y: Tensor<E>,
    z: Tensor<E>,
    k: usize,
)
    requires
        t.wf(),
        k >= 1,
        numel(t.shape@) >= 1,
        crate::shapes::shape_ok(seq![k] + t.shape@),
        // what `try_broadcast` over the new leading axis ensured
        y.shape@ == seq![k] + t.shape@,
        y.strides@ == expanded(seq![k] + t.shape@, seq![0usize], t.strides@),
        y.data@ == t.data@,
        // what `try_sum` over that axis ensured
        z.data@ == crate::kernels::reduce_fwd(
            RedKind::SumRed,
            y.elems(),
            seq![k] + t.shape@,
            seq![0usize],
        ),
    ensures
        z.data@.len() == numel(t.shape@),
        forall|j: int|
            0 <= j < numel(t.shape@) ==> z.data@[j] == rep_add::<E>(t.elems()[j], k as nat),
{
    let s = t.shape@;
    let dst = seq![k] + s;
    let m = numel(s);
    let te = t.elems();
    assert(dst.skip(1) =~= s);
    assert(numel(dst) == (k as nat) * m);
    lemma_front_axis(s, k, t.strides@);
    crate::grid::lemma_logical_index(t.data@, s, t.strides@);
    // each replica of the broadcast view repeats the input's elements
    let bstr = seq![0usize] + t.strides@;
    assert(y.strides@ == bstr);
    crate::grid::lemma_logical_index(y.data@, dst, bstr);
    let vy = y.elems();
    assert(vy.len() == (k as nat) * m);
    assert(m >= 1);
    assert forall|q: int| 0 <= q < vy.len() implies vy[q] == te[q % (m as int)] by {
        assert(vy[q] == crate::grid::blockval(y.data@, dst, bstr, 0, q));
        assert(bstr[0] == 0usize);
        assert(bstr.skip(1) =~= t.strides@);
        vstd::arithmetic::div_mod::lemma_fundamental_div_mod(q, m as int);
        assert((q / (m as int)) * (bstr[0] as int) == 0) by (nonlinear_arith)
            requires
                bstr[0] == 0,
        ;
        assert(crate::grid::blockval(y.data@, dst, bstr, 0, q) == crate::grid::blockval(
            t.data@,
            s,
            t.strides@,
            0,
            q % (m as int),
        ));
        assert(te[q % (m as int)] == crate::grid::blockval(
            t.data@,
            s,
            t.strides@,
            0,
            q % (m as int),
        ));
    }
    // summing the leading axis folds the replicas in, one round per replica
    lemma_front_axis(s, k, cstrides(s));
    lemma_bcast_sum_rows(vy, te, s, k, k as nat);
    assert(dst[0] == k);
    assert(z.data@ == Seq::new(m, |j: int| rep_add::<E>(te[j], k as nat)));
}

/// Helper for the broadcast-and-sum backward law: the sum's backward walk
/// reads the one seeded unit through zero strides and lands on each shared
/// physical slot once per replica, so after `r` replicas every slot holds
/// the unit folded onto zero `r` times over.
proof fn lemma_ones_fanout_rows<E: Scalar>(s: Seq<usize>, k: usize, estr: Seq<usize>, r: nat)
    requires
        crate::shapes::shape_ok(s),
        numel(s) >= 1,
        estr.len() == s.len() + 1,
        forall|i: int| 0 <= i < estr.len() ==> estr[i] == 0,
        r <= k,
    ensures
        crate::grid::acc2_rows(
            one_seq::<E>(1),
            seq![k] + s,
            estr,
            0,
            zero_seq::<E>(numel(s)),
            seq![0usize] + cstrides(s),
            0,
            AccOp::Accum,
            r,
        ) == Seq::new(numel(s), |j: int| rep_add::<E>(E::sp_one(), r)),
    decreases r,
{
    let dst = seq![k] + s;
    let m = numel(s);
    let bstr = seq![0usize] + cstrides(s);
    assert(dst.skip(1) =~= s);
    assert(bstr.skip(1) =~= cstrides(s));
    assert(bstr[0] == 0usize);
    assert(estr[0] == 0usize);
    if r == 0 {
        assert(crate::grid::acc2_rows(
            one_seq::<E>(1),
            dst,
            estr,
            0,
            zero_seq::<E>(m),
            bstr,
            0,
            AccOp::Accum,
            0nat,
        ) =~= Seq::new(m, |j: int| rep_add::<E>(E::sp_one(), 0nat)));
    } else {
        lemma_ones_fanout_rows::<E>(s, k, estr, (r - 1) as nat);
        let prev = crate::grid::acc2_rows(
            one_seq::<E>(1),
            dst,
            estr,
            0,
            zero_seq::<E>(m),
            bstr,
            0,
            AccOp::Accum,
            (r - 1) as nat,
        );
        assert((r - 1) * (estr[0] as int) == 0 && (r - 1) * (bstr[0] as int) == 0)
            by (nonlinear_arith)
            requires
                estr[0] == 0,
                bstr[0] == 0,
        ;
        assert(estr.skip(1) =~= Seq::new(s.len(), |i: int| 0usize)) by {
            assert forall|i: int| 0 <= i < s.len() implies estr.skip(1)[i] == 0usize by {
                assert(estr.skip(1)[i] == estr[i + 1]);
            }
        }
        assert forall|i: int| 0 <= i < estr.skip(1).len() implies estr.skip(1)[i] == 0 by {
            assert(estr.skip(1)[i] == estr[i + 1]);
        }
        crate::grid::lemma_acc2_const_src(one_seq::<E>(1), s, estr.skip(1), 0, prev, 0, AccOp::Accum);
        assert(crate::grid::acc2_rows(
            one_seq::<E>(1),
            dst,
            estr,
            0,
            zero_seq::<E>(m),
            bstr,
            0,
            AccOp::Accum,
            r,
        ) =~= Seq::new(m, |j: int| rep_add::<E>(E::sp_one(), r)));
    }
}

/// Backward through a broadcast over a new leading axis of size `k` and the
/// full sum that follows: every gradient slot of the source receives the
/// unit gradient folded onto zero `k` times over — "k into every element",
/// stated as the fold the kernels compute.
///
/// `y` is what broadcasting the contiguous, freshly traced `t` returned,
/// `z` is what summing `y` over every axis returned, and `g` is what
/// `backward` on `z` returned, each pinned exactly as the contracts of
/// `try_broadcast`, `try_sum` and `backward` state them.
pub proof fn law_broadcast_sum_backward<E: Scalar>(
    t: Tensor<E>,
    y: Tensor<E>,
    z: Tensor<E>,
    dev0: Cpu,
    k: usize,
    axes: Seq<usize>,
    g: Map<u64, Seq<E>>,
)
    requires
        t.wf(),
        t.strides@ == cstrides(t.shape@),
        t.data@.len() == numel(t.shape@),
        numel(t.shape@) >= 1,
        t.tape is Traced,
        t.tape->0.ops@.len() == 0,
        t.tape->0.grads.gmap() == Map::<u64, Seq<E>>::empty(),
        t.id < dev0.next_id,
        crate::shapes::shape_ok(seq![k] + t.shape@),
        // what `try_broadcast` over the new leading axis ensured
        y.id == dev0.next_id,
        y.shape@ == seq![k] + t.shape@,
        y.strides@ == expanded(seq![k] + t.shape@, seq![0usize], t.strides@),
        y.data@ == t.data@,
        threads_two(t.tape, y.tape, t.id, t.data@.len(), y.id, t.data@.len()),
        last_op(y.tape) matches BackwardOp::ViewBack { inp_id, out_id, len } && inp_id == t.id
            && out_id == y.id && len == t.data@.len(),
        // what `try_sum` over every axis ensured
        axes_ok(axes, y.shape@.len() as nat),
        forall|j: int| 0 <= j < y.shape@.len() ==> ax_has(axes, j),
        z.id == dev0.next_id + 1,
        z.shape@ == reduced(y.shape@, axes),
        z.data@.len() == numel(z.shape@),
        threads_two(y.tape, z.tape, y.id, y.data@.len(), z.id, numel(z.shape@)),
        last_op(z.tape) matches BackwardOp::Reduce { kind, inp, out, axes: a2 } && kind
            == RedKind::SumRed && inp.id == y.id && inp.data@ == y.data@ && inp.shape@
            == y.shape@ && inp.strides@ == y.strides@ && out.id == z.id && out.data@
            == z.data@ && a2@ == axes,
        // what `backward` ensured of its result
        g == replay(
            z.tape->0.ops@,
            z.tape->0.grads.gmap().insert(z.id, one_seq::<E>(z.data@.len())),
        ),
    ensures
        g.contains_key(t.id),
        g[t.id] == Seq::new(
            t.data@.len(),
            |j: int| E::sp_add(E::sp_zero(), rep_add::<E>(E::sp_one(), k as nat)),
        ),
{
    let s = t.shape@;
    let dst = seq![k] + s;
    let dlen = t.data@.len();
    assert(dst.skip(1) =~= s);
    crate::ops::lemma_reduced_all(dst, axes);
    assert(numel(z.shape@) == 1);
    lemma_front_axis(s, k, t.strides@);
    let bstr = seq![0usize] + cstrides(s);
    assert(y.strides@ == bstr);
    // the recording holds the broadcast's step and then the sum's
    let ops = z.tape->0.ops@;
    assert(ops.len() == 2);
    let vb = y.tape->0.ops@.last();
    assert(ops.drop_last() == y.tape->0.ops@);
    assert(ops[0] == vb);
    let sm = ops.last();
    // the registered buffers: zeros for t and y, the seeded unit for z
    let me = Map::<u64, Seq<E>>::empty();
    let ygm = fix_one(fix_one(me, t.id, dlen), y.id, dlen);
    assert(y.tape->0.grads.gmap() == ygm);
    let zgm = fix_one(fix_one(ygm, y.id, dlen), z.id, 1nat);
    assert(z.tape->0.grads.gmap() == zgm);
    let m0 = zgm.insert(z.id, one_seq::<E>(1));
    assert(t.id != y.id && t.id != z.id && y.id != z.id);
    assert(m0[t.id] == zero_seq::<E>(dlen));
    assert(m0[y.id] == zero_seq::<E>(dlen));
    assert(m0[z.id] == one_seq::<E>(1));
    // replay: the sum's step first, the broadcast's second
    assert(replay(ops, m0) == replay(ops.drop_last(), replay_step(sm, m0)));
    let m1 = replay_step(sm, m0);
    assert(replay(ops.drop_last(), m1) == replay(
        ops.drop_last().drop_last(),
        replay_step(ops.drop_last().last(), m1),
    ));
    assert(ops.drop_last().last() == vb);
    assert(ops.drop_last().drop_last() =~= Seq::<BackwardOp<E>>::empty());
    assert(g == replay_step(vb, m1));
    // the sum's backward fans the unit out over each replica of every slot
    let inp = sm->Reduce_inp;
    let ou = sm->Reduce_out;
    let m2 = fix_one(fix_one(m0, inp.id, inp.data@.len()), ou.id, ou.data@.len());
    assert(m2 =~= m0);
    let estr = expanded(dst, axes, cstrides(reduced(dst, axes)));
    assert forall|i: int| 0 <= i < estr.len() implies estr[i] == 0 by {
        assert(ax_has(axes, i));
    }
    assert(estr.len() == dst.len());
    lemma_ones_fanout_rows::<E>(s, k, estr, k as nat);
    let fan = Seq::new(numel(s), |j: int| rep_add::<E>(E::sp_one(), k as nat));
    assert(reduce_bwd_spec(
        RedKind::SumRed,
        inp.data@,
        inp.shape@,
        inp.strides@,
        sm->Reduce_axes@,
        ou.data@,
        m2[inp.id],
        m2[ou.id],
    ) == fan) by {
        assert(dst[0] == k);
    }
    assert(m1 == m2.insert(y.id, fan));
    // the broadcast's backward hands the fanned-out buffer on, slot for slot
    let m3 = fix_one(fix_one(m1, t.id, dlen as nat), y.id, dlen as nat);
    assert(m3 =~= m1);
    assert(m3[t.id] == zero_seq::<E>(dlen));
    assert(m3[y.id] == fan);
    assert(g == m3.insert(t.id, crate::kernels::add_seq(m3[t.id], m3[y.id])));
    assert(g[t.id] =~= Seq::new(
        dlen,
        |j: int| E::sp_add(E::sp_zero(), rep_add::<E>(E::sp_one(), k as nat)),
    ));
}

/// Permuting and then permuting through the inverse bijection is the
/// identity, bit for bit: the shape, the strides and the storage all come
/// back unchanged.
///
/// `y` is what permuting `t` through `p` returned, and `z` is what
/// permuting `y` through `q` returned, each pinned as the contract of
/// `try_permute` states them; `q` undoes `p`.
pub proof fn law_permute_involution<E: Scalar>(
    t: Tensor<E>,
    y: Tensor<E>,
    z: Tensor<E>,
    p: Seq<usize>,
    q: Seq<usize>,
)
    requires
        t.strides@.len() == t.shape@.len(),
        crate::shapes::is_perm(p, t.shape@.len() as nat),
        crate::shapes::is_perm(q, t.shape@.len() as nat),
        forall|i: int| 0 <= i < t.shape@.len() ==> p[#[trigger] q[i] as int] == i,
        // what the two permutes ensured
        y.shape@ == crate::shapes::permuted(t.shape@, p),
        y.strides@ == crate::shapes::permuted(t.strides@, p),
        y.data@ == t.data@,
        z.shape@ == crate::shapes::permuted(y.shape@, q),
        z.strides@ == crate::shapes::permuted(y.strides@, q),
        z.data@ == y.data@,
    ensures
        z.shape@ == t.shape@,
        z.strides@ == t.strides@,
        z.data@ == t.data@,
        z.elems() == t.elems(),
{
    assert forall|i: int| 0 <= i < t.shape@.len() implies z.shape@[i] == t.shape@[i]
        && z.strides@[i] == t.strides@[i] by {
        assert(z.shape@[i] == y.shape@[q[i] as int]);
        assert(y.shape@[q[i] as int] == t.shape@[p[q[i] as int] as int]);
        assert(z.strides@[i] == y.strides@[q[i] as int]);
        assert(y.strides@[q[i] as int] == t.strides@[p[q[i] as int] as int]);
    }
    assert(z.shape@ =~= t.shape@);
    assert(z.strides@ =~= t.strides@);
}

/// The tape orders the backward pass: replaying `n` recorded steps applies
/// the newest first and the oldest last. Unfolded from either end, the
/// replay of a non-empty recording is one step around the replay of the
/// rest.
pub proof fn law_tape_replay_order<E: Scalar>(ops: Seq<BackwardOp<E>>, m: Map<u64, Seq<E>>)
    requires
        ops.len() > 0,
    ensures
        replay(ops, m) == replay(ops.drop_last(), replay_step(ops.last(), m)),
        replay(ops, m) == replay_step(ops[0], replay(ops.skip(1), m)),
{
    crate::tape::lemma_replay_front(ops, m);
}

} // verus!
