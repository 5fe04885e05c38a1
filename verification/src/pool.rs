use vstd::prelude::*;
use vstd::arithmetic::div_mod::{lemma_fundamental_div_mod, lemma_fundamental_div_mod_converse};
use crate::scalar::Scalar;
use crate::shapes::{numel, shape_ok};
use crate::tape::BackwardOp;

verus! {

/// The geometry of a 2-D pooling operation: kernel size, stride, zero
/// padding, and the input and output extents they give rise to.
#[derive(Debug, Clone, Copy)]
pub struct Pool2DOp {
    pub kernel: usize,
    pub stride: usize,
    pub padding: usize,
    pub batch: usize,
    pub chan: usize,
    pub h_in: usize,
    pub h_out: usize,
    pub w_in: usize,
    pub w_out: usize,
}

/// The output extent of one convolved axis.
pub open spec fn conv_out(h: int, k: int, s: int, p: int) -> int {
    (h + 2 * p - k) / s + 1
}

impl Pool2DOp {
    /// The arithmetic relations `new` establishes, and the bounds under
    /// which every window of every output position holds at least one input
    /// element.
    pub open spec fn wf(self) -> bool {
        &&& self.stride >= 1
        &&& self.kernel >= 1
        &&& self.padding < self.kernel
        &&& self.batch >= 1
        &&& self.chan >= 1
        &&& self.h_in >= 1
        &&& self.w_in >= 1
        &&& self.h_in + 2 * self.padding >= self.kernel
        &&& self.w_in + 2 * self.padding >= self.kernel
        &&& self.h_out == conv_out(self.h_in as int, self.kernel as int, self.stride as int, self.padding as int)
        &&& self.w_out == conv_out(self.w_in as int, self.kernel as int, self.stride as int, self.padding as int)
        &&& self.kernel * self.kernel <= usize::MAX
        &&& self.h_out >= 1
        &&& self.w_out >= 1
        &&& self.h_in + 2 * self.padding <= usize::MAX
        &&& self.w_in + 2 * self.padding <= usize::MAX
    }

    /// Builds the geometry for the given kernel, stride, padding and
    /// `[batch, channels, height, width]` extents.
    pub fn new(k: usize, s: usize, p: usize, dims: [usize; 4]) -> (r: Pool2DOp)
        requires
            s >= 1,
            k >= 1,
            p < k,
            dims[0] >= 1,
            dims[1] >= 1,
            dims[2] >= 1,
            dims[3] >= 1,
            dims[2] + 2 * p >= k,
            dims[3] + 2 * p >= k,
            dims[2] + 2 * p <= usize::MAX,
            dims[3] + 2 * p <= usize::MAX,
            k * k <= usize::MAX,
        ensures
            r.wf(),
            r.kernel == k,
            r.stride == s,
            r.padding == p,
            r.batch == dims[0],
            r.chan == dims[1],
            r.h_in == dims[2],
            r.w_in == dims[3],
    {
        let b = dims[0];
        let c = dims[1];
        let h_in = dims[2];
        let w_in = dims[3];
        proof {
            assert((h_in + 2 * p - k) / (s as int) >= 0) by (nonlinear_arith)
                requires
                    h_in + 2 * p >= k,
                    s >= 1,
            ;
            assert((h_in + 2 * p - k) / (s as int) <= h_in + 2 * p - k) by (nonlinear_arith)
                requires
                    h_in + 2 * p >= k,
                    s >= 1,
            ;
            assert((w_in + 2 * p - k) / (s as int) >= 0) by (nonlinear_arith)
                requires
                    w_in + 2 * p >= k,
                    s >= 1,
            ;
            assert((w_in + 2 * p - k) / (s as int) <= w_in + 2 * p - k) by (nonlinear_arith)
                requires
                    w_in + 2 * p >= k,
                    s >= 1,
            ;
        }
        Pool2DOp {
            kernel: k,
            stride: s,
            padding: p,
            batch: b,
            chan: c,
            h_in,
            h_out: (h_in + 2 * p - k) / s + 1,
            w_in,
            w_out: (w_in + 2 * p - k) / s + 1,
        }
    }
}

/// The pooling families.
#[derive(Clone, Copy)]
pub enum PoolKind {
    AvgPool,
    MaxPool,
    MinPool,
}

/// Whether window position `(kh, kw)` of output position `(oh, ow)` lands on
/// the input rather than on the zero padding.
pub open spec fn in_b(o: Pool2DOp, oh: int, ow: int, kh: int, kw: int) -> bool {
    &&& oh * o.stride + kh >= o.padding
    &&& oh * o.stride + kh < o.h_in + o.padding
    &&& ow * o.stride + kw >= o.padding
    &&& ow * o.stride + kw < o.w_in + o.padding
}

/// The flat input index addressed by window position `(kh, kw)` of output
/// position `(oh, ow)` in plane `nc`.
pub open spec fn widx(o: Pool2DOp, nc: int, oh: int, ow: int, kh: int, kw: int) -> int {
    (nc * o.h_in + (oh * o.stride + kh - o.padding)) * o.w_in + (ow * o.stride + kw
        - o.padding)
}

/// The in-bounds elements of a window, gathered over its first `t` positions
/// in `(kh, kw)` row-major order.
pub open spec fn win_vals<E: Scalar>(
    v: Seq<E>,
    o: Pool2DOp,
    nc: int,
    oh: int,
    ow: int,
    t: nat,
) -> Seq<E>
    decreases t,
{
    if t == 0 {
        Seq::empty()
    } else {
        let kh = ((t - 1) as int) / (o.kernel as int);
        let kw = ((t - 1) as int) % (o.kernel as int);
        let prev = win_vals(v, o, nc, oh, ow, (t - 1) as nat);
        if in_b(o, oh, ow, kh, kw) {
            prev.push(v[widx(o, nc, oh, ow, kh, kw)])
        } else {
            prev
        }
    }
}

/// Left fold of addition, seeded with zero: what the padding contributes to
/// an average window.
pub open spec fn fold_add<E: Scalar>(s: Seq<E>) -> E
    decreases s.len(),
{
    if s.len() == 0 {
        E::sp_zero()
    } else {
        E::sp_add(fold_add(s.drop_last()), s.last())
    }
}

/// Left fold of an extremum over a non-empty window; ties keep the earlier
/// element.
pub open spec fn fold_ext<E: Scalar>(s: Seq<E>, m: crate::grid::AccOp) -> E
    decreases s.len(),
{
    if s.len() <= 1 {
        s[0]
    } else {
        crate::grid::comb(m, fold_ext(s.drop_last(), m), s.last())
    }
}

/// The value of output slot `j` of a pooling pass over the contiguous input
/// `v`.
pub open spec fn pool_out_at<E: Scalar>(v: Seq<E>, o: Pool2DOp, kind: PoolKind, j: int) -> E {
    let hw = (o.h_out * o.w_out) as int;
    let nc = j / hw;
    let rest = j % hw;
    let oh = rest / (o.w_out as int);
    let ow = rest % (o.w_out as int);
    let w = win_vals(v, o, nc, oh, ow, (o.kernel * o.kernel) as nat);
    match kind {
        PoolKind::AvgPool => E::sp_div_n(fold_add(w), (o.kernel * o.kernel) as usize),
        PoolKind::MaxPool => fold_ext(w, crate::grid::AccOp::Larger),
        PoolKind::MinPool => fold_ext(w, crate::grid::AccOp::Smaller),
    }
}

/// The output buffer of a pooling pass.
pub open spec fn pool_out<E: Scalar>(v: Seq<E>, o: Pool2DOp, kind: PoolKind) -> Seq<E> {
    Seq::new((o.batch * o.chan * o.h_out * o.w_out) as nat, |j: int| pool_out_at(v, o, kind, j))
}

/// The logical input gradient of a pooling pass, accumulated over the first
/// `c` of the `slots * kernel * kernel` (output position, window position)
/// pairs, in ascending order: the average hands each in-bounds position a
/// kernel-squared-th of the output gradient, and the extrema hand the whole
/// output gradient to every position that numerically equals the extremum.
pub open spec fn pool_bwd_acc<E: Scalar>(
    v: Seq<E>,
    outv: Seq<E>,
    g: Seq<E>,
    o: Pool2DOp,
    kind: PoolKind,
    gl: Seq<E>,
    c: nat,
) -> Seq<E>
    decreases c,
{
    if c == 0 {
        gl
    } else {
        let prev = pool_bwd_acc(v, outv, g, o, kind, gl, (c - 1) as nat);
        let kk = (o.kernel * o.kernel) as int;
        let j = ((c - 1) as int) / kk;
        let t = ((c - 1) as int) % kk;
        let kh = t / (o.kernel as int);
        let kw = t % (o.kernel as int);
        let hw = (o.h_out * o.w_out) as int;
        let nc = j / hw;
        let rest = j % hw;
        let oh = rest / (o.w_out as int);
        let ow = rest % (o.w_out as int);
        if in_b(o, oh, ow, kh, kw) {
            let idx = widx(o, nc, oh, ow, kh, kw);
            match kind {
                PoolKind::AvgPool => prev.update(
                    idx,
                    E::sp_add(prev[idx], E::sp_div_n(g[j], (o.kernel * o.kernel) as usize)),
                ),
                _ => if E::sp_eq(v[idx], outv[j]) {
                    prev.update(idx, E::sp_add(prev[idx], g[j]))
                } else {
                    prev
                },
            }
        } else {
            prev
        }
    }
}

/// Gathering over more window positions never loses elements.
proof fn lemma_win_mono<E: Scalar>(
    v: Seq<E>,
    o: Pool2DOp,
    nc: int,
    oh: int,
    ow: int,
    t1: nat,
    t2: nat,
)
    requires
        t1 <= t2,
    ensures
        win_vals(v, o, nc, oh, ow, t1).len() <= win_vals(v, o, nc, oh, ow, t2).len(),
    decreases t2,
{
    if t1 < t2 {
        lemma_win_mono(v, o, nc, oh, ow, t1, (t2 - 1) as nat);
    }
}

/// Every output position's window holds at least one input element: the
/// padding is smaller than the kernel, so a window never lies wholly in the
/// padding.
proof fn lemma_window_nonempty<E: Scalar>(v: Seq<E>, o: Pool2DOp, nc: int, oh: int, ow: int)
    requires
        o.wf(),
        0 <= oh < o.h_out,
        0 <= ow < o.w_out,
    ensures
        win_vals(v, o, nc, oh, ow, (o.kernel * o.kernel) as nat).len() >= 1,
{
    let k = o.kernel as int;
    let s = o.stride as int;
    let p = o.padding as int;
    let h = o.h_in as int;
    let w = o.w_in as int;
    let kh0: int = if oh * s >= p {
        0
    } else {
        p - oh * s
    };
    let kw0: int = if ow * s >= p {
        0
    } else {
        p - ow * s
    };
    assert(oh * s <= (o.h_out - 1) * s) by (nonlinear_arith)
        requires
            oh <= o.h_out - 1,
            s >= 0,
            oh >= 0,
    ;
    lemma_fundamental_div_mod(h + 2 * p - k, s);
    assert((o.h_out - 1) * s <= h + 2 * p - k) by (nonlinear_arith)
        requires
            o.h_out - 1 == (h + 2 * p - k) / s,
            h + 2 * p - k == s * ((h + 2 * p - k) / s) + (h + 2 * p - k) % s,
            (h + 2 * p - k) % s >= 0,
    ;
    assert(ow * s <= (o.w_out - 1) * s) by (nonlinear_arith)
        requires
            ow <= o.w_out - 1,
            s >= 0,
            ow >= 0,
    ;
    lemma_fundamental_div_mod(w + 2 * p - k, s);
    assert((o.w_out - 1) * s <= w + 2 * p - k) by (nonlinear_arith)
        requires
            o.w_out - 1 == (w + 2 * p - k) / s,
            w + 2 * p - k == s * ((w + 2 * p - k) / s) + (w + 2 * p - k) % s,
            (w + 2 * p - k) % s >= 0,
    ;
    assert(in_b(o, oh, ow, kh0, kw0));
    assert(0 <= kh0 < k);
    assert(0 <= kw0 < k);
    let t0 = kh0 * k + kw0;
    assert(0 <= t0 && t0 + 1 <= k * k) by (nonlinear_arith)
        requires
            0 <= kh0 < k,
            0 <= kw0 < k,
            t0 == kh0 * k + kw0,
    ;
    lemma_fundamental_div_mod_converse(t0, k, kh0, kw0);
    assert(win_vals(v, o, nc, oh, ow, (t0 + 1) as nat).len() >= 1);
    lemma_win_mono(v, o, nc, oh, ow, (t0 + 1) as nat, (o.kernel * o.kernel) as nat);
}

/// Computes the forward pass of a pooling operation over a contiguous
/// input.
#[verifier::loop_isolation(false)]
#[verifier::rlimit(50)]
pub fn pool_fwd_vec<E: Scalar>(kind: PoolKind, v: &Vec<E>, o: Pool2DOp) -> (r: Vec<E>)
    requires
        o.wf(),
        v@.len() == o.batch * o.chan * o.h_in * o.w_in,
        o.batch * o.chan * o.h_out * o.w_out <= usize::MAX,
    ensures
        r@ == pool_out(v@, o, kind),
        r@.len() == o.batch * o.chan * o.h_out * o.w_out,
{
    proof {
        assert(o.batch * o.chan <= o.batch * o.chan * o.h_out * o.w_out
            && o.h_out * o.w_out <= o.batch * o.chan * o.h_out * o.w_out && (o.batch * o.chan)
            * (o.h_out * o.w_out) == o.batch * o.chan * o.h_out * o.w_out) by (nonlinear_arith)
            requires
                o.batch >= 1,
                o.chan >= 1,
                o.h_out >= 1,
                o.w_out >= 1,
        ;
    }
    let bc = o.batch * o.chan;
    let hw = o.h_out * o.w_out;
    let total = bc * hw;
    let kk = o.kernel * o.kernel;
    let vl = v.len();
    proof {
        assert(hw >= 1 && bc >= 1 && kk >= 1) by (nonlinear_arith)
            requires
                o.h_out >= 1,
                o.w_out >= 1,
                o.batch >= 1,
                o.chan >= 1,
                o.kernel >= 1,
                hw == o.h_out * o.w_out,
                bc == o.batch * o.chan,
                kk == o.kernel * o.kernel,
        ;
        assert(bc * o.h_in <= (vl as int) && bc * o.h_in * o.w_in == (vl as int))
            by (nonlinear_arith)
            requires
                bc == o.batch * o.chan,
                o.h_in >= 1,
                o.w_in >= 1,
                vl == o.batch * o.chan * o.h_in * o.w_in,
        ;
    }
    let mut out: Vec<E> = Vec::new();
    let mut j: usize = 0;
    while j < total
        invariant
            j <= total,
            out@.len() == j,
            forall|q: int| 0 <= q < j ==> out@[q] == pool_out_at(v@, o, kind, q),
        decreases total - j,
    {
        let nc = j / hw;
        let rest = j % hw;
        let oh = rest / o.w_out;
        let ow = rest % o.w_out;
        proof {
            lemma_fundamental_div_mod(j as int, hw as int);
            assert(nc < bc) by (nonlinear_arith)
                requires
                    j < bc * hw,
                    hw >= 1,
                    j == hw * (nc as int) + (rest as int),
                    0 <= rest < hw,
            ;
            lemma_fundamental_div_mod(rest as int, o.w_out as int);
            assert(oh < o.h_out) by (nonlinear_arith)
                requires
                    rest < o.h_out * o.w_out,
                    o.w_out >= 1,
                    rest == o.w_out * (oh as int) + (ow as int),
                    0 <= ow < o.w_out,
            ;
        }
        let mut acc: E = E::zero();
        let mut started: bool = false;
        let mut t: usize = 0;
        while t < kk
            invariant
                t <= kk,
                nc == j / hw,
                rest == j % hw,
                oh == rest / o.w_out,
                ow == rest % o.w_out,
                nc < bc,
                oh < o.h_out,
                ow < o.w_out,
                kind is AvgPool ==> acc == fold_add(
                    win_vals(v@, o, nc as int, oh as int, ow as int, t as nat),
                ),
                !(kind is AvgPool) ==> (started <==> win_vals(
                    v@,
                    o,
                    nc as int,
                    oh as int,
                    ow as int,
                    t as nat,
                ).len() >= 1),
                !(kind is AvgPool) && started ==> acc == fold_ext(
                    win_vals(v@, o, nc as int, oh as int, ow as int, t as nat),
                    match kind {
                        PoolKind::MinPool => crate::grid::AccOp::Smaller,
                        _ => crate::grid::AccOp::Larger,
                    },
                ),
            decreases kk - t,
        {
            let kh = t / o.kernel;
            let kw = t % o.kernel;
            proof {
                lemma_fundamental_div_mod(t as int, o.kernel as int);
                assert(kh < o.kernel) by (nonlinear_arith)
                    requires
                        t < o.kernel * o.kernel,
                        o.kernel >= 1,
                        t == o.kernel * (kh as int) + (kw as int),
                        0 <= kw < o.kernel,
                ;
                assert((oh as int) * (o.stride as int) <= (o.h_out - 1) * (o.stride as int))
                    by (nonlinear_arith)
                    requires
                        oh <= o.h_out - 1,
                        o.stride >= 0,
                        oh >= 0,
                ;
                lemma_fundamental_div_mod(
                    o.h_in + 2 * o.padding - o.kernel,
                    o.stride as int,
                );
                assert((o.h_out - 1) * (o.stride as int) <= o.h_in + 2 * o.padding - o.kernel)
                    by (nonlinear_arith)
                    requires
                        o.h_out - 1 == (o.h_in + 2 * o.padding - o.kernel) / (o.stride as int),
                        o.h_in + 2 * o.padding - o.kernel == (o.stride as int) * ((o.h_in + 2
                            * o.padding - o.kernel) / (o.stride as int)) + (o.h_in + 2
                            * o.padding - o.kernel) % (o.stride as int),
                        (o.h_in + 2 * o.padding - o.kernel) % (o.stride as int) >= 0,
                ;
                assert((ow as int) * (o.stride as int) <= (o.w_out - 1) * (o.stride as int))
                    by (nonlinear_arith)
                    requires
                        ow <= o.w_out - 1,
                        o.stride >= 0,
                        ow >= 0,
                ;
                lemma_fundamental_div_mod(
                    o.w_in + 2 * o.padding - o.kernel,
                    o.stride as int,
                );
                assert((o.w_out - 1) * (o.stride as int) <= o.w_in + 2 * o.padding - o.kernel)
                    by (nonlinear_arith)
                    requires
                        o.w_out - 1 == (o.w_in + 2 * o.padding - o.kernel) / (o.stride as int),
                        o.w_in + 2 * o.padding - o.kernel == (o.stride as int) * ((o.w_in + 2
                            * o.padding - o.kernel) / (o.stride as int)) + (o.w_in + 2
                            * o.padding - o.kernel) % (o.stride as int),
                        (o.w_in + 2 * o.padding - o.kernel) % (o.stride as int) >= 0,
                ;
            }
            let hpos = oh * o.stride + kh;
            let wpos = ow * o.stride + kw;
            let ghost wv0 = win_vals(v@, o, nc as int, oh as int, ow as int, t as nat);
            let ghost wv1 = win_vals(v@, o, nc as int, oh as int, ow as int, (t + 1) as nat);
            if hpos >= o.padding && hpos < o.h_in + o.padding && wpos >= o.padding && wpos
                < o.w_in + o.padding {
                proof {
                    assert((nc as int) * o.h_in + (hpos - o.padding) < bc * o.h_in)
                        by (nonlinear_arith)
                        requires
                            nc < bc,
                            hpos - o.padding < o.h_in,
                            o.h_in >= 1,
                            nc >= 0,
                            hpos - o.padding >= 0,
                    ;
                    assert(((nc as int) * o.h_in + (hpos - o.padding)) * o.w_in + (wpos
                        - o.padding) < bc * o.h_in * o.w_in) by (nonlinear_arith)
                        requires
                            (nc as int) * o.h_in + (hpos - o.padding) < bc * o.h_in,
                            wpos - o.padding < o.w_in,
                            o.w_in >= 1,
                            (nc as int) * o.h_in + (hpos - o.padding) >= 0,
                            wpos - o.padding >= 0,
                    ;
                    assert(bc * o.h_in * o.w_in == o.batch * o.chan * o.h_in * o.w_in)
                        by (nonlinear_arith)
                        requires
                            bc == o.batch * o.chan,
                    ;
                    assert(wv1 == wv0.push(
                        v@[widx(o, nc as int, oh as int, ow as int, kh as int, kw as int)],
                    ));
                }
                let idx = (nc * o.h_in + (hpos - o.padding)) * o.w_in + (wpos - o.padding);
                let x = v[idx];
                match kind {
                    PoolKind::AvgPool => {
                        acc = E::add(acc, x);
                    },
                    PoolKind::MaxPool => {
                        if started {
                            if E::lt(acc, x) {
                                acc = x;
                            }
                        } else {
                            acc = x;
                            started = true;
                        }
                    },
                    PoolKind::MinPool => {
                        if started {
                            if E::lt(x, acc) {
                                acc = x;
                            }
                        } else {
                            acc = x;
                            started = true;
                        }
                    },
                }
                proof {
                    assert(wv1.drop_last() == wv0);
                }
            } else {
                proof {
                    assert(wv1 == wv0);
                }
            }
            t = t + 1;
        }
        let val = match kind {
            PoolKind::AvgPool => E::div_n(acc, kk),
            _ => {
                proof {
                    lemma_window_nonempty(v@, o, nc as int, oh as int, ow as int);
                }
                acc
            },
        };
        out.push(val);
        j = j + 1;
    }
    proof {
        assert(out@ =~= pool_out(v@, o, kind));
    }
    out
}

/// Computes the backward pass of a pooling operation: the logical input
/// gradient, onto which the output gradient is folded window by window.
#[verifier::loop_isolation(false)]
#[verifier::rlimit(50)]
pub fn pool_bwd_vec<E: Scalar>(
    kind: PoolKind,
    v: &Vec<E>,
    outv: &Vec<E>,
    g: &Vec<E>,
    o: Pool2DOp,
    gl: Vec<E>,
) -> (r: Vec<E>)
    requires
        o.wf(),
        v@.len() == o.batch * o.chan * o.h_in * o.w_in,
        outv@.len() == o.batch * o.chan * o.h_out * o.w_out,
        g@.len() == o.batch * o.chan * o.h_out * o.w_out,
        gl@.len() == v@.len(),
        o.batch * o.chan * o.h_out * o.w_out <= usize::MAX,
    ensures
        r@ == pool_bwd_acc(
            v@,
            outv@,
            g@,
            o,
            kind,
            gl@,
            ((o.batch * o.chan * o.h_out * o.w_out) * (o.kernel * o.kernel)) as nat,
        ),
        r@.len() == gl@.len(),
{
    proof {
        assert(o.batch * o.chan <= o.batch * o.chan * o.h_out * o.w_out
            && o.h_out * o.w_out <= o.batch * o.chan * o.h_out * o.w_out && (o.batch * o.chan)
            * (o.h_out * o.w_out) == o.batch * o.chan * o.h_out * o.w_out) by (nonlinear_arith)
            requires
                o.batch >= 1,
                o.chan >= 1,
                o.h_out >= 1,
                o.w_out >= 1,
        ;
    }
    let bc = o.batch * o.chan;
    let hw = o.h_out * o.w_out;
    let total = bc * hw;
    let kk = o.kernel * o.kernel;
    let vl = v.len();
    proof {
        assert(hw >= 1 && bc >= 1 && kk >= 1) by (nonlinear_arith)
            requires
                o.h_out >= 1,
                o.w_out >= 1,
                o.batch >= 1,
                o.chan >= 1,
                o.kernel >= 1,
                hw == o.h_out * o.w_out,
                bc == o.batch * o.chan,
                kk == o.kernel * o.kernel,
        ;
        assert(bc * o.h_in <= (vl as int) && bc * o.h_in * o.w_in == (vl as int))
            by (nonlinear_arith)
            requires
                bc == o.batch * o.chan,
                o.h_in >= 1,
                o.w_in >= 1,
                vl == o.batch * o.chan * o.h_in * o.w_in,
        ;
    }
    let mut gl = gl;
    let ghost gl0 = gl@;
    let mut j: usize = 0;
    while j < total
        invariant
            j <= total,
            gl@.len() == v@.len(),
            gl@ == pool_bwd_acc(v@, outv@, g@, o, kind, gl0, (j * kk) as nat),
        decreases total - j,
    {
        let nc = j / hw;
        let rest = j % hw;
        let oh = rest / o.w_out;
        let ow = rest % o.w_out;
        proof {
            lemma_fundamental_div_mod(j as int, hw as int);
            assert(nc < bc) by (nonlinear_arith)
                requires
                    j < bc * hw,
                    hw >= 1,
                    j == hw * (nc as int) + (rest as int),
                    0 <= rest < hw,
            ;
            lemma_fundamental_div_mod(rest as int, o.w_out as int);
            assert(oh < o.h_out) by (nonlinear_arith)
                requires
                    rest < o.h_out * o.w_out,
                    o.w_out >= 1,
                    rest == o.w_out * (oh as int) + (ow as int),
                    0 <= ow < o.w_out,
            ;
            assert(j * kk + kk <= total * kk && (j + 1) * kk == j * kk + kk && j * kk >= 0)
                by (nonlinear_arith)
                requires
                    j + 1 <= total,
                    kk >= 0,
                    j >= 0,
            ;
        }
        let gj = g[j];
        let mut t: usize = 0;
        while t < kk
            invariant
                t <= kk,
                nc == j / hw,
                rest == j % hw,
                oh == rest / o.w_out,
                ow == rest % o.w_out,
                nc < bc,
                oh < o.h_out,
                ow < o.w_out,
                gj == g@[j as int],
                gl@.len() == v@.len(),
                gl@ == pool_bwd_acc(v@, outv@, g@, o, kind, gl0, (j * kk + t) as nat),
            decreases kk - t,
        {
            let kh = t / o.kernel;
            let kw = t % o.kernel;
            proof {
                lemma_fundamental_div_mod(t as int, o.kernel as int);
                assert(kh < o.kernel) by (nonlinear_arith)
                    requires
                        t < o.kernel * o.kernel,
                        o.kernel >= 1,
                        t == o.kernel * (kh as int) + (kw as int),
                        0 <= kw < o.kernel,
                ;
                assert((oh as int) * (o.stride as int) <= (o.h_out - 1) * (o.stride as int))
                    by (nonlinear_arith)
                    requires
                        oh <= o.h_out - 1,
                        o.stride >= 0,
                        oh >= 0,
                ;
                lemma_fundamental_div_mod(
                    o.h_in + 2 * o.padding - o.kernel,
                    o.stride as int,
                );
                assert((o.h_out - 1) * (o.stride as int) <= o.h_in + 2 * o.padding - o.kernel)
                    by (nonlinear_arith)
                    requires
                        o.h_out - 1 == (o.h_in + 2 * o.padding - o.kernel) / (o.stride as int),
                        o.h_in + 2 * o.padding - o.kernel == (o.stride as int) * ((o.h_in + 2
                            * o.padding - o.kernel) / (o.stride as int)) + (o.h_in + 2
                            * o.padding - o.kernel) % (o.stride as int),
                        (o.h_in + 2 * o.padding - o.kernel) % (o.stride as int) >= 0,
                ;
                assert((ow as int) * (o.stride as int) <= (o.w_out - 1) * (o.stride as int))
                    by (nonlinear_arith)
                    requires
                        ow <= o.w_out - 1,
                        o.stride >= 0,
                        ow >= 0,
                ;
                lemma_fundamental_div_mod(
                    o.w_in + 2 * o.padding - o.kernel,
                    o.stride as int,
                );
                assert((o.w_out - 1) * (o.stride as int) <= o.w_in + 2 * o.padding - o.kernel)
                    by (nonlinear_arith)
                    requires
                        o.w_out - 1 == (o.w_in + 2 * o.padding - o.kernel) / (o.stride as int),
                        o.w_in + 2 * o.padding - o.kernel == (o.stride as int) * ((o.w_in + 2
                            * o.padding - o.kernel) / (o.stride as int)) + (o.w_in + 2
                            * o.padding - o.kernel) % (o.stride as int),
                        (o.w_in + 2 * o.padding - o.kernel) % (o.stride as int) >= 0,
                ;
                // the step counter decomposes back into this position
                assert(0 <= (t as int) && (t as int) < kk && (j as int) * (kk as int) + (
                t as int) == (j * kk + t) as int) by (nonlinear_arith)
                    requires
                        t < kk,
                        j >= 0,
                        t >= 0,
                ;
                lemma_fundamental_div_mod_converse(
                    (j * kk + t) as int,
                    kk as int,
                    j as int,
                    t as int,
                );
            }
            let hpos = oh * o.stride + kh;
            let wpos = ow * o.stride + kw;
            if hpos >= o.padding && hpos < o.h_in + o.padding && wpos >= o.padding && wpos
                < o.w_in + o.padding {
                proof {
                    assert((nc as int) * o.h_in + (hpos - o.padding) < bc * o.h_in)
                        by (nonlinear_arith)
                        requires
                            nc < bc,
                            hpos - o.padding < o.h_in,
                            o.h_in >= 1,
                            nc >= 0,
                            hpos - o.padding >= 0,
                    ;
                    assert(((nc as int) * o.h_in + (hpos - o.padding)) * o.w_in + (wpos
                        - o.padding) < bc * o.h_in * o.w_in) by (nonlinear_arith)
                        requires
                            (nc as int) * o.h_in + (hpos - o.padding) < bc * o.h_in,
                            wpos - o.padding < o.w_in,
                            o.w_in >= 1,
                            (nc as int) * o.h_in + (hpos - o.padding) >= 0,
                            wpos - o.padding >= 0,
                    ;
                    assert(bc * o.h_in * o.w_in == o.batch * o.chan * o.h_in * o.w_in)
                        by (nonlinear_arith)
                        requires
                            bc == o.batch * o.chan,
                    ;
                }
                let idx = (nc * o.h_in + (hpos - o.padding)) * o.w_in + (wpos - o.padding);
                let held = gl[idx];
                match kind {
                    PoolKind::AvgPool => {
                        let d = E::div_n(gj, kk);
                        gl.set(idx, E::add(held, d));
                    },
                    _ => {
                        if E::eq_num(v[idx], outv[j]) {
                            gl.set(idx, E::add(held, gj));
                        }
                    },
                }
            }
            t = t + 1;
        }
        j = j + 1;
    }
    proof {
        assert((total as int) * (kk as int) == ((o.batch * o.chan * o.h_out * o.w_out) * (
        o.kernel * o.kernel)) as int) by (nonlinear_arith)
            requires
                total == bc * hw,
                bc == o.batch * o.chan,
                hw == o.h_out * o.w_out,
                kk == o.kernel * o.kernel,
                (o.batch * o.chan) * (o.h_out * o.w_out) == o.batch * o.chan * o.h_out
                    * o.w_out,
        ;
    }
    gl
}

/// The extents a pooling pass reads from a rank-3 `(C, H, W)` or rank-4
/// `(B, C, H, W)` shape: the batch of a rank-3 shape is one.
pub open spec fn pd_b(shape: Seq<usize>) -> usize {
    if shape.len() == 4 {
        shape[0]
    } else {
        1usize
    }
}

pub open spec fn pd_c(shape: Seq<usize>) -> usize {
    shape[shape.len() - 3]
}

pub open spec fn pd_h(shape: Seq<usize>) -> usize {
    shape[shape.len() - 2]
}

pub open spec fn pd_w(shape: Seq<usize>) -> usize {
    shape[shape.len() - 1]
}

/// The geometry a pooling pass of the given kernel, stride and padding sets
/// up over a shape.
pub open spec fn mk_pool_op(shape: Seq<usize>, k: usize, s: usize, p: usize) -> Pool2DOp {
    Pool2DOp {
        kernel: k,
        stride: s,
        padding: p,
        batch: pd_b(shape),
        chan: pd_c(shape),
        h_in: pd_h(shape),
        h_out: conv_out(pd_h(shape) as int, k as int, s as int, p as int) as usize,
        w_in: pd_w(shape),
        w_out: conv_out(pd_w(shape) as int, k as int, s as int, p as int) as usize,
    }
}

/// The shape of a pooling pass's output: the spatial extents convolved, the
/// rest kept.
pub open spec fn pool_out_shape(shape: Seq<usize>, k: usize, s: usize, p: usize) -> Seq<usize> {
    let o = mk_pool_op(shape, k, s, p);
    if shape.len() == 4 {
        seq![o.batch, o.chan, o.h_out, o.w_out]
    } else {
        seq![o.chan, o.h_out, o.w_out]
    }
}

/// What a pooling pass asks of its input and parameters.
pub open spec fn pool_pre<E: Scalar>(t: crate::tensor::Tensor<E>, k: usize, s: usize, p: usize) -> bool {
    let shape = t.shape@;
    &&& t.wf()
    &&& (shape.len() == 3 || shape.len() == 4)
    &&& pd_b(shape) >= 1
    &&& pd_c(shape) >= 1
    &&& pd_h(shape) >= 1
    &&& pd_w(shape) >= 1
    &&& s >= 1
    &&& k >= 1
    &&& p < k
    &&& pd_h(shape) + 2 * p >= k
    &&& pd_w(shape) + 2 * p >= k
    &&& pd_h(shape) + 2 * p <= usize::MAX
    &&& pd_w(shape) + 2 * p <= usize::MAX
    &&& k * k <= usize::MAX
    &&& shape_ok(pool_out_shape(shape, k, s, p))
}

proof fn lemma_numel_small(shape: Seq<usize>)
    requires
        shape.len() == 3 || shape.len() == 4,
    ensures
        numel(shape) == pd_b(shape) * pd_c(shape) * pd_h(shape) * pd_w(shape),
{
    let s1 = shape.skip(1);
    let s2 = shape.skip(2);
    let s3 = shape.skip(3);
    assert(s1.skip(1) =~= s2);
    assert(s2.skip(1) =~= s3);
    assert(s1[0] == shape[1] && s2[0] == shape[2]);
    if shape.len() == 4 {
        let s4 = shape.skip(4);
        assert(s3.skip(1) =~= s4);
        assert(s4 =~= Seq::<usize>::empty());
        assert(s3[0] == shape[3]);
        assert(numel(s4) == 1);
        assert(numel(s3) == shape[3] as nat * numel(s4));
        assert(numel(s2) == shape[2] as nat * numel(s3));
        assert(numel(s1) == shape[1] as nat * numel(s2));
        assert(numel(shape) == shape[0] as nat * numel(s1));
        assert(shape[0] as nat * (shape[1] as nat * (shape[2] as nat * (shape[3] as nat * 1)))
            == shape[0] * shape[1] * shape[2] * shape[3]) by (nonlinear_arith);
    } else {
        assert(s3 =~= Seq::<usize>::empty());
        assert(numel(s3) == 1);
        assert(numel(s2) == shape[2] as nat * numel(s3));
        assert(numel(s1) == shape[1] as nat * numel(s2));
        assert(numel(shape) == shape[0] as nat * numel(s1));
        assert(shape[0] as nat * (shape[1] as nat * (shape[2] as nat * 1)) == 1 * shape[0]
            * shape[1] * shape[2]) by (nonlinear_arith);
    }
}

impl<E: Scalar> crate::tensor::Tensor<E> {
    /// A 2-D pooling pass over the two trailing spatial axes. The output is
    /// a fresh contiguous tensor whose spatial extents are the convolved
    /// ones; one backward step is recorded.
    pub fn try_pool2d(
        self,
        dev: &mut crate::tensor::Cpu,
        kind: PoolKind,
        k: usize,
        s: usize,
        p: usize,
    ) -> (r: Result<crate::tensor::Tensor<E>, crate::tensor::CpuError>)
        requires
            pool_pre(self, k, s, p),
            self.id < old(dev).next_id,
            old(dev).next_id < u64::MAX,
        ensures
            r is Ok,
            r matches Ok(out) ==> {
                &&& out.wf()
                &&& out.id == old(dev).next_id
                &&& final(dev).next_id == old(dev).next_id + 1
                &&& final(dev).rng == old(dev).rng
                &&& out.shape@ == pool_out_shape(self.shape@, k, s, p)
                &&& out.strides@ == crate::shapes::cstrides(out.shape@)
                &&& out.data@ == pool_out(self.elems(), mk_pool_op(self.shape@, k, s, p), kind)
                &&& crate::ops::threads_two(
                    self.tape,
                    out.tape,
                    self.id,
                    self.data@.len(),
                    out.id,
                    numel(out.shape@),
                )
                &&& (self.tape is Traced ==> (crate::ops::last_op(out.tape) matches
                    BackwardOp::PoolBack { kind: k2, op, inp, out: ou } && op == mk_pool_op(
                    self.shape@,
                    k,
                    s,
                    p,
                ) && inp.id == self.id && inp.data@ == self.data@ && inp.shape@ == self.shape@
                    && inp.strides@ == self.strides@ && ou.id == out.id && ou.data@
                    == out.data@))
            },
    {
        let rank = self.shape.len();
        let b: usize = if rank == 4 {
            self.shape[0]
        } else {
            1
        };
        let c = self.shape[rank - 3];
        let h = self.shape[rank - 2];
        let w = self.shape[rank - 1];
        let o = Pool2DOp::new(k, s, p, [b, c, h, w]);
        proof {
            assert(o == mk_pool_op(self.shape@, k, s, p));
            lemma_numel_small(self.shape@);
            lemma_numel_small(pool_out_shape(self.shape@, k, s, p));
            assert(pool_out_shape(self.shape@, k, s, p).skip(0) =~= pool_out_shape(
                self.shape@,
                k,
                s,
                p,
            ));
        }
        let (a, tape) = self.split_tape();
        let mut tape = tape;
        let v = a.as_vec();
        let outdata = pool_fwd_vec(kind, &v, o);
        let mut osh: Vec<usize> = Vec::new();
        if rank == 4 {
            osh.push(b);
        }
        osh.push(c);
        osh.push(o.h_out);
        osh.push(o.w_out);
        proof {
            assert(osh@ =~= pool_out_shape(self.shape@, k, s, p));
        }
        let out0: crate::tensor::Tensor<E> = dev.tensor_from_vec(outdata, osh);
        tape.alloc_for(a.id, a.data.len());
        tape.alloc_for(out0.id, out0.data.len());
        let op = BackwardOp::PoolBack { kind, op: o, inp: a.snap(), out: out0.snap() };
        proof {
            assert(crate::tape::op_wf(op));
        }
        tape.record(op);
        proof {
            if self.tape is Traced {
                assert(tape->0.ops@.drop_last() =~= self.tape->0.ops@);
            }
        }
        Ok(out0.put_tape(tape))
    }

    /// Average pooling: each output position is the mean of its window, the
    /// padding counting as zeros.
    pub fn try_avg_pool2d(self, dev: &mut crate::tensor::Cpu, k: usize, s: usize, p: usize) -> (r:
        Result<crate::tensor::Tensor<E>, crate::tensor::CpuError>)
        requires
            pool_pre(self, k, s, p),
            self.id < old(dev).next_id,
            old(dev).next_id < u64::MAX,
        ensures
            r is Ok,
            r matches Ok(out) ==> {
                &&& out.wf()
                &&& out.id == old(dev).next_id
                &&& final(dev).next_id == old(dev).next_id + 1
                &&& out.shape@ == pool_out_shape(self.shape@, k, s, p)
                &&& out.data@ == pool_out(
                    self.elems(),
                    mk_pool_op(self.shape@, k, s, p),
                    PoolKind::AvgPool,
                )
            },
    {
        self.try_pool2d(dev, PoolKind::AvgPool, k, s, p)
    }

    /// Average pooling.
    pub fn avg_pool2d(self, dev: &mut crate::tensor::Cpu, k: usize, s: usize, p: usize) -> (out:
        crate::tensor::Tensor<E>)
        requires
            pool_pre(self, k, s, p),
            self.id < old(dev).next_id,
            old(dev).next_id < u64::MAX,
        ensures
            out.wf(),
            out.id == old(dev).next_id,
            final(dev).next_id == old(dev).next_id + 1,
            out.shape@ == pool_out_shape(self.shape@, k, s, p),
            out.data@ == pool_out(
                self.elems(),
                mk_pool_op(self.shape@, k, s, p),
                PoolKind::AvgPool,
            ),
    {
        self.try_pool2d(dev, PoolKind::AvgPool, k, s, p).unwrap()
    }

    /// Max pooling: each output position is the largest in-bounds element of
    /// its window; the padding takes no part.
    pub fn try_max_pool2d(self, dev: &mut crate::tensor::Cpu, k: usize, s: usize, p: usize) -> (r:
        Result<crate::tensor::Tensor<E>, crate::tensor::CpuError>)
        requires
            pool_pre(self, k, s, p),
            self.id < old(dev).next_id,
            old(dev).next_id < u64::MAX,
        ensures
            r is Ok,
            r matches Ok(out) ==> {
                &&& out.wf()
                &&& out.id == old(dev).next_id
                &&& final(dev).next_id == old(dev).next_id + 1
                &&& out.shape@ == pool_out_shape(self.shape@, k, s, p)
                &&& out.data@ == pool_out(
                    self.elems(),
                    mk_pool_op(self.shape@, k, s, p),
                    PoolKind::MaxPool,
                )
            },
    {
        self.try_pool2d(dev, PoolKind::MaxPool, k, s, p)
    }

    /// Max pooling.
    pub fn max_pool2d(self, dev: &mut crate::tensor::Cpu, k: usize, s: usize, p: usize) -> (out:
        crate::tensor::Tensor<E>)
        requires
            pool_pre(self, k, s, p),
            self.id < old(dev).next_id,
            old(dev).next_id < u64::MAX,
        ensures
            out.wf(),
            out.id == old(dev).next_id,
            final(dev).next_id == old(dev).next_id + 1,
            out.shape@ == pool_out_shape(self.shape@, k, s, p),
            out.data@ == pool_out(
                self.elems(),
                mk_pool_op(self.shape@, k, s, p),
                PoolKind::MaxPool,
            ),
    {
        self.try_pool2d(dev, PoolKind::MaxPool, k, s, p).unwrap()
    }

    /// Min pooling: each output position is the smallest in-bounds element
    /// of its window; the padding takes no part.
    pub fn try_min_pool2d(self, dev: &mut crate::tensor::Cpu, k: usize, s: usize, p: usize) -> (r:
        Result<crate::tensor::Tensor<E>, crate::tensor::CpuError>)
        requires
            pool_pre(self, k, s, p),
            self.id < old(dev).next_id,
            old(dev).next_id < u64::MAX,
        ensures
            r is Ok,
            r matches Ok(out) ==> {
                &&& out.wf()
                &&& out.id == old(dev).next_id
                &&& final(dev).next_id == old(dev).next_id + 1
                &&& out.shape@ == pool_out_shape(self.shape@, k, s, p)
                &&& out.data@ == pool_out(
                    self.elems(),
                    mk_pool_op(self.shape@, k, s, p),
                    PoolKind::MinPool,
                )
            },
    {
        self.try_pool2d(dev, PoolKind::MinPool, k, s, p)
    }

    /// Min pooling.
    pub fn min_pool2d(self, dev: &mut crate::tensor::Cpu, k: usize, s: usize, p: usize) -> (out:
        crate::tensor::Tensor<E>)
        requires
            pool_pre(self, k, s, p),
            self.id < old(dev).next_id,
            old(dev).next_id < u64::MAX,
        ensures
            out.wf(),
            out.id == old(dev).next_id,
            final(dev).next_id == old(dev).next_id + 1,
            out.shape@ == pool_out_shape(self.shape@, k, s, p),
            out.data@ == pool_out(
                self.elems(),
                mk_pool_op(self.shape@, k, s, p),
                PoolKind::MinPool,
            ),
    {
        self.try_pool2d(dev, PoolKind::MinPool, k, s, p).unwrap()
    }
}

} // verus!
