use vstd::prelude::*;
use crate::grid::{acc2, lemma_acc2_empty, logical, materialize, walk_acc2, zero_seq, zeros_vec,
    AccOp};
use crate::scalar::Scalar;
use crate::shapes::{addr_ok, axes_ok, cstrides, expanded, has_zero_extent,
    lemma_addr_ok_contiguous, lemma_addr_ok_from_bound, lemma_addr_ok_zero_extent,
    lemma_max_ofs_cstrides, lemma_max_ofs_expanded, lemma_max_ofs_reduced_le, lemma_numel_zero,
    lemma_reduced_extents, numel, numel_of, reduced, reduced_shape, shape_ok, strides_of};

verus! {

/// The element-wise unary operations.
#[derive(Clone, Copy)]
pub enum UnKind<E> {
    /// `exp` of each element.
    ExpOp,
    /// Each element multiplied by a constant.
    MulByOp(E),
    /// Each element divided by a positive count.
    DivByNOp(usize),
}

pub open spec fn un_wf<E: Scalar>(k: UnKind<E>) -> bool {
    match k {
        UnKind::DivByNOp(n) => n >= 1,
        _ => true,
    }
}

/// The forward value of a unary operation.
pub open spec fn apply_un<E: Scalar>(k: UnKind<E>, x: E) -> E {
    match k {
        UnKind::ExpOp => E::sp_exp(x),
        UnKind::MulByOp(c) => E::sp_mul(x, c),
        UnKind::DivByNOp(n) => E::sp_div_n(x, n),
    }
}

/// The local gradient a unary operation passes back, given the output
/// gradient `g` and the forward output `y` at that position.
pub open spec fn un_back<E: Scalar>(k: UnKind<E>, g: E, y: E) -> E {
    match k {
        UnKind::ExpOp => E::sp_mul(g, y),
        UnKind::MulByOp(c) => E::sp_mul(g, c),
        UnKind::DivByNOp(n) => E::sp_div_n(g, n),
    }
}

pub open spec fn map_un<E: Scalar>(k: UnKind<E>, v: Seq<E>) -> Seq<E> {
    Seq::new(v.len(), |i: int| apply_un(k, v[i]))
}

pub open spec fn map_un_back<E: Scalar>(k: UnKind<E>, g: Seq<E>, y: Seq<E>) -> Seq<E> {
    Seq::new(g.len(), |i: int| un_back(k, g[i], y[i]))
}

/// Applies a unary operation to each element.
pub fn un_fwd_vec<E: Scalar>(k: UnKind<E>, v: &Vec<E>) -> (r: Vec<E>)
    requires
        un_wf(k),
    ensures
        r@ == map_un(k, v@),
{
    let n = v.len();
    let mut r: Vec<E> = Vec::new();
    let mut i: usize = 0;
    while i < n
        invariant
            i <= n,
            n == v@.len(),
            un_wf(k),
            r@.len() == i,
            forall|j: int| 0 <= j < i ==> r@[j] == apply_un(k, v@[j]),
        decreases n - i,
    {
        let x = v[i];
        let y = match k {
            UnKind::ExpOp => E::exp(x),
            UnKind::MulByOp(c) => E::mul(x, c),
            UnKind::DivByNOp(nn) => E::div_n(x, nn),
        };
        r.push(y);
        i = i + 1;
    }
    assert(r@ =~= map_un(k, v@));
    r
}

/// Applies the backward rule of a unary operation to each position.
pub fn un_bwd_vec<E: Scalar>(k: UnKind<E>, g: &Vec<E>, y: &Vec<E>) -> (r: Vec<E>)
    requires
        un_wf(k),
        g@.len() == y@.len(),
    ensures
        r@ == map_un_back(k, g@, y@),
{
    let n = g.len();
    let mut r: Vec<E> = Vec::new();
    let mut i: usize = 0;
    while i < n
        invariant
            i <= n,
            n == g@.len(),
            g@.len() == y@.len(),
            un_wf(k),
            r@.len() == i,
            forall|j: int| 0 <= j < i ==> r@[j] == un_back(k, g@[j], y@[j]),
        decreases n - i,
    {
        let gv = g[i];
        let yv = y[i];
        let d = match k {
            UnKind::ExpOp => E::mul(gv, yv),
            UnKind::MulByOp(c) => E::mul(gv, c),
            UnKind::DivByNOp(nn) => E::div_n(gv, nn),
        };
        r.push(d);
        i = i + 1;
    }
    assert(r@ =~= map_un_back(k, g@, y@));
    r
}

/// The element-wise binary operations.
#[derive(Clone, Copy)]
pub enum BinKind {
    /// Element-wise sum.
    AddB,
    /// Element-wise maximum; ties keep the left value.
    MaximumB,
    /// Element-wise minimum; ties keep the left value.
    MinimumB,
}

/// The forward value of a binary operation.
pub open spec fn apply_bin<E: Scalar>(k: BinKind, a: E, b: E) -> E {
    match k {
        BinKind::AddB => E::sp_add(a, b),
        BinKind::MaximumB => if E::sp_lt(a, b) {
            b
        } else {
            a
        },
        BinKind::MinimumB => if E::sp_lt(b, a) {
            b
        } else {
            a
        },
    }
}

/// The gradient handed to the left operand: the full output gradient where
/// the left side alone decides the output, half of it on a numeric tie, and
/// zero where the right side decides.
pub open spec fn bin_back_l<E: Scalar>(k: BinKind, a: E, b: E, g: E) -> E {
    match k {
        BinKind::AddB => g,
        BinKind::MaximumB => if E::sp_eq(a, b) {
            E::sp_halve(g)
        } else if E::sp_lt(b, a) {
            g
        } else {
            E::sp_zero()
        },
        BinKind::MinimumB => if E::sp_eq(a, b) {
            E::sp_halve(g)
        } else if E::sp_lt(a, b) {
            g
        } else {
            E::sp_zero()
        },
    }
}

/// The gradient handed to the right operand.
pub open spec fn bin_back_r<E: Scalar>(k: BinKind, a: E, b: E, g: E) -> E {
    match k {
        BinKind::AddB => g,
        BinKind::MaximumB => if E::sp_eq(a, b) {
            E::sp_halve(g)
        } else if E::sp_lt(a, b) {
            g
        } else {
            E::sp_zero()
        },
        BinKind::MinimumB => if E::sp_eq(a, b) {
            E::sp_halve(g)
        } else if E::sp_lt(b, a) {
            g
        } else {
            E::sp_zero()
        },
    }
}

pub open spec fn zip_bin<E: Scalar>(k: BinKind, a: Seq<E>, b: Seq<E>) -> Seq<E> {
    Seq::new(a.len(), |i: int| apply_bin(k, a[i], b[i]))
}

pub open spec fn zip_bin_back_l<E: Scalar>(k: BinKind, a: Seq<E>, b: Seq<E>, g: Seq<E>) -> Seq<
    E,
> {
    Seq::new(a.len(), |i: int| bin_back_l(k, a[i], b[i], g[i]))
}

pub open spec fn zip_bin_back_r<E: Scalar>(k: BinKind, a: Seq<E>, b: Seq<E>, g: Seq<E>) -> Seq<
    E,
> {
    Seq::new(a.len(), |i: int| bin_back_r(k, a[i], b[i], g[i]))
}

/// Applies a binary operation position by position.
pub fn bin_fwd_vec<E: Scalar>(k: BinKind, a: &Vec<E>, b: &Vec<E>) -> (r: Vec<E>)
    requires
        a@.len() == b@.len(),
    ensures
        r@ == zip_bin(k, a@, b@),
{
    let n = a.len();
    let mut r: Vec<E> = Vec::new();
    let mut i: usize = 0;
    while i < n
        invariant
            i <= n,
            n == a@.len(),
            a@.len() == b@.len(),
            r@.len() == i,
            forall|j: int| 0 <= j < i ==> r@[j] == apply_bin(k, a@[j], b@[j]),
        decreases n - i,
    {
        let x = a[i];
        let y = b[i];
        let z = match k {
            BinKind::AddB => E::add(x, y),
            BinKind::MaximumB => if E::lt(x, y) {
                y
            } else {
                x
            },
            BinKind::MinimumB => if E::lt(y, x) {
                y
            } else {
                x
            },
        };
        r.push(z);
        i = i + 1;
    }
    assert(r@ =~= zip_bin(k, a@, b@));
    r
}

/// The per-position gradient of the left operand of a binary operation.
pub fn bin_bwd_l_vec<E: Scalar>(k: BinKind, a: &Vec<E>, b: &Vec<E>, g: &Vec<E>) -> (r: Vec<E>)
    requires
        a@.len() == b@.len(),
        a@.len() == g@.len(),
    ensures
        r@ == zip_bin_back_l(k, a@, b@, g@),
{
    let n = a.len();
    let mut r: Vec<E> = Vec::new();
    let mut i: usize = 0;
    while i < n
        invariant
            i <= n,
            n == a@.len(),
            a@.len() == b@.len(),
            a@.len() == g@.len(),
            r@.len() == i,
            forall|j: int| 0 <= j < i ==> r@[j] == bin_back_l(k, a@[j], b@[j], g@[j]),
        decreases n - i,
    {
        let x = a[i];
        let y = b[i];
        let gv = g[i];
        let d = match k {
            BinKind::AddB => gv,
            BinKind::MaximumB => if E::eq_num(x, y) {
                E::halve(gv)
            } else if E::lt(y, x) {
                gv
            } else {
                E::zero()
            },
            BinKind::MinimumB => if E::eq_num(x, y) {
                E::halve(gv)
            } else if E::lt(x, y) {
                gv
            } else {
                E::zero()
            },
        };
        r.push(d);
        i = i + 1;
    }
    assert(r@ =~= zip_bin_back_l(k, a@, b@, g@));
    r
}

/// The per-position gradient of the right operand of a binary operation.
pub fn bin_bwd_r_vec<E: Scalar>(k: BinKind, a: &Vec<E>, b: &Vec<E>, g: &Vec<E>) -> (r: Vec<E>)
    requires
        a@.len() == b@.len(),
        a@.len() == g@.len(),
    ensures
        r@ == zip_bin_back_r(k, a@, b@, g@),
{
    let n = a.len();
    let mut r: Vec<E> = Vec::new();
    let mut i: usize = 0;
    while i < n
        invariant
            i <= n,
            n == a@.len(),
            a@.len() == b@.len(),
            a@.len() == g@.len(),
            r@.len() == i,
            forall|j: int| 0 <= j < i ==> r@[j] == bin_back_r(k, a@[j], b@[j], g@[j]),
        decreases n - i,
    {
        let x = a[i];
        let y = b[i];
        let gv = g[i];
        let d = match k {
            BinKind::AddB => gv,
            BinKind::MaximumB => if E::eq_num(x, y) {
                E::halve(gv)
            } else if E::lt(x, y) {
                gv
            } else {
                E::zero()
            },
            BinKind::MinimumB => if E::eq_num(x, y) {
                E::halve(gv)
            } else if E::lt(y, x) {
                gv
            } else {
                E::zero()
            },
        };
        r.push(d);
        i = i + 1;
    }
    assert(r@ =~= zip_bin_back_r(k, a@, b@, g@));
    r
}

/// The reduction operations.
#[derive(Clone, Copy)]
pub enum RedKind {
    SumRed,
    MaxRed,
    MinRed,
}

/// How the walker folds for a reduction.
pub open spec fn red_mode(k: RedKind) -> AccOp {
    match k {
        RedKind::SumRed => AccOp::Accum,
        RedKind::MaxRed => AccOp::Larger,
        RedKind::MinRed => AccOp::Smaller,
    }
}

/// Computes `red_mode`.
pub fn red_mode_exec(k: RedKind) -> (r: AccOp)
    ensures
        r == red_mode(k),
{
    match k {
        RedKind::SumRed => AccOp::Accum,
        RedKind::MaxRed => AccOp::Larger,
        RedKind::MinRed => AccOp::Smaller,
    }
}

/// Where the extremum backward hands the output gradient back: exactly the
/// positions whose value numerically equals the extremum of their slice.
pub open spec fn sel_back<E: Scalar>(vin: Seq<E>, voutb: Seq<E>, goutb: Seq<E>) -> Seq<E> {
    Seq::new(
        vin.len(),
        |i: int|
            if E::sp_eq(vin[i], voutb[i]) {
                goutb[i]
            } else {
                E::sp_zero()
            },
    )
}

/// Computes `sel_back`.
pub fn sel_back_vec<E: Scalar>(vin: &Vec<E>, voutb: &Vec<E>, goutb: &Vec<E>) -> (r: Vec<E>)
    requires
        vin@.len() == voutb@.len(),
        vin@.len() == goutb@.len(),
    ensures
        r@ == sel_back(vin@, voutb@, goutb@),
{
    let n = vin.len();
    let mut r: Vec<E> = Vec::new();
    let mut i: usize = 0;
    while i < n
        invariant
            i <= n,
            n == vin@.len(),
            vin@.len() == voutb@.len(),
            vin@.len() == goutb@.len(),
            r@.len() == i,
            forall|j: int|
                0 <= j < i ==> r@[j] == (if E::sp_eq(vin@[j], voutb@[j]) {
                    goutb@[j]
                } else {
                    E::sp_zero()
                }),
        decreases n - i,
    {
        let d = if E::eq_num(vin[i], voutb[i]) {
            goutb[i]
        } else {
            E::zero()
        };
        r.push(d);
        i = i + 1;
    }
    assert(r@ =~= sel_back(vin@, voutb@, goutb@));
    r
}

/// Position-wise sum of two buffers of equal length.
pub open spec fn add_seq<E: Scalar>(a: Seq<E>, b: Seq<E>) -> Seq<E> {
    Seq::new(a.len(), |i: int| E::sp_add(a[i], b[i]))
}

/// Computes `add_seq`.
pub fn add_vec<E: Scalar>(a: &Vec<E>, b: &Vec<E>) -> (r: Vec<E>)
    requires
        a@.len() == b@.len(),
    ensures
        r@ == add_seq(a@, b@),
{
    let n = a.len();
    let mut r: Vec<E> = Vec::new();
    let mut i: usize = 0;
    while i < n
        invariant
            i <= n,
            n == a@.len(),
            a@.len() == b@.len(),
            r@.len() == i,
            forall|j: int| 0 <= j < i ==> r@[j] == E::sp_add(a@[j], b@[j]),
        decreases n - i,
    {
        r.push(E::add(a[i], b[i]));
        i = i + 1;
    }
    assert(r@ =~= add_seq(a@, b@));
    r
}

/// `a` with the slice of `g` starting at `off` added position-wise.
pub open spec fn slab_add<E: Scalar>(a: Seq<E>, g: Seq<E>, off: int) -> Seq<E> {
    Seq::new(a.len(), |i: int| E::sp_add(a[i], g[off + i]))
}

/// Computes `slab_add`.
pub fn slab_add_vec<E: Scalar>(a: &Vec<E>, g: &Vec<E>, off: usize) -> (r: Vec<E>)
    requires
        off + a@.len() <= g@.len(),
    ensures
        r@ == slab_add(a@, g@, off as int),
{
    let n = a.len();
    let gm = g.len();
    let mut r: Vec<E> = Vec::new();
    let mut i: usize = 0;
    while i < n
        invariant
            i <= n,
            n == a@.len(),
            gm == g@.len(),
            off + a@.len() <= g@.len(),
            r@.len() == i,
            forall|j: int| 0 <= j < i ==> r@[j] == E::sp_add(a@[j], g@[off + j]),
        decreases n - i,
    {
        r.push(E::add(a[i], g[off + i]));
        i = i + 1;
    }
    assert(r@ =~= slab_add(a@, g@, off as int));
    r
}

/// The output buffer of a reduction over `axes` of a view whose logical
/// elements are `v` (already gathered): sums fold onto zero, extrema fold
/// onto the first element of each slice, input positions visited in
/// row-major order.
pub open spec fn reduce_fwd<E: Scalar>(
    kind: RedKind,
    v: Seq<E>,
    shape: Seq<usize>,
    axes: Seq<usize>,
) -> Seq<E> {
    let dshape = reduced(shape, axes);
    let estr = expanded(shape, axes, cstrides(dshape));
    let init = match kind {
        RedKind::SumRed => zero_seq::<E>(numel(dshape)),
        _ => acc2(
            v,
            dshape,
            reduced(cstrides(shape), axes),
            0,
            zero_seq::<E>(numel(dshape)),
            cstrides(dshape),
            0,
            AccOp::Assign,
        ),
    };
    acc2(v, shape, cstrides(shape), 0, init, estr, 0, red_mode(kind))
}

/// Establishes that the expanded stride vector addresses within a buffer of
/// the reduced shape's element count.
pub proof fn lemma_expanded_addr_ok(shape: Seq<usize>, axes: Seq<usize>, len: int)
    requires
        forall|j: int| 0 <= j < shape.len() ==> 1 <= #[trigger] shape[j],
        numel(reduced(shape, axes)) <= usize::MAX,
        numel(reduced(shape, axes)) <= len,
    ensures
        addr_ok(shape, expanded(shape, axes, cstrides(reduced(shape, axes))), 0, len),
{
    let dshape = reduced(shape, axes);
    let estr = expanded(shape, axes, cstrides(dshape));
    crate::shapes::lemma_reduced_extents(shape, axes, shape.len() as int);
    lemma_max_ofs_cstrides(dshape);
    lemma_max_ofs_expanded(shape, axes, cstrides(dshape));
    crate::shapes::lemma_numel_zero(dshape);
    assert(numel(dshape) >= 1);
    lemma_addr_ok_from_bound(shape, estr, 0, len);
}

/// Computes `reduce_fwd`.
pub fn reduce_fwd_vec<E: Scalar>(
    kind: RedKind,
    v: &Vec<E>,
    shape: &Vec<usize>,
    axes: &Vec<usize>,
) -> (r: Vec<E>)
    requires
        shape_ok(shape@),
        axes_ok(axes@, shape@.len() as nat),
        shape_ok(reduced(shape@, axes@)),
        v@.len() == numel(shape@),
        !(kind is SumRed) ==> (numel(shape@) == 0 ==> numel(reduced(shape@, axes@)) == 0),
    ensures
        r@ == reduce_fwd(kind, v@, shape@, axes@),
        r@.len() == numel(reduced(shape@, axes@)),
    decreases 0int,
{
    let dshape = reduced_shape(shape, axes);
    let nd = numel_of(&dshape);
    let n = numel_of(shape);
    let mut out = zeros_vec::<E>(nd);
    let ghost gdshape = reduced(shape@, axes@);
    let ghost gestr = expanded(shape@, axes@, cstrides(gdshape));
    if n == 0 {
        proof {
            lemma_numel_zero(shape@);
            match kind {
                RedKind::SumRed => {
                    lemma_acc2_empty(
                        v@,
                        shape@,
                        cstrides(shape@),
                        0,
                        zero_seq::<E>(numel(gdshape)),
                        gestr,
                        0,
                        red_mode(kind),
                    );
                },
                _ => {
                    lemma_numel_zero(gdshape);
                    lemma_acc2_empty(
                        v@,
                        gdshape,
                        reduced(cstrides(shape@), axes@),
                        0,
                        zero_seq::<E>(numel(gdshape)),
                        cstrides(gdshape),
                        0,
                        AccOp::Assign,
                    );
                    lemma_acc2_empty(
                        v@,
                        shape@,
                        cstrides(shape@),
                        0,
                        zero_seq::<E>(numel(gdshape)),
                        gestr,
                        0,
                        red_mode(kind),
                    );
                },
            }
        }
        return out;
    }
    proof {
        lemma_numel_zero(shape@);
        assert forall|j: int| 0 <= j < shape@.len() implies 1 <= #[trigger] shape@[j] by {
            if shape@[j] == 0 {
                assert(has_zero_extent(shape@));
            }
        }
        crate::shapes::lemma_reduced_extents(shape@, axes@, shape@.len() as int);
        lemma_numel_zero(gdshape);
    }
    let kstr = {
        let cs = strides_of(shape);
        reduced_shape(&cs, axes)
    };
    let dstr = strides_of(&dshape);
    match kind {
        RedKind::SumRed => {},
        _ => {
            // initialise each output slot with the first element of its
            // slice
            proof {
                crate::shapes::lemma_kept_len_eq(shape@, cstrides(shape@), axes@, shape@.len() as int);
                crate::shapes::lemma_max_ofs_reduced_le(shape@, cstrides(shape@), axes@);
                lemma_max_ofs_cstrides(shape@);
                lemma_addr_ok_from_bound(gdshape, reduced(cstrides(shape@), axes@), 0, v@.len() as int);
                lemma_max_ofs_cstrides(gdshape);
                lemma_addr_ok_from_bound(gdshape, cstrides(gdshape), 0, out@.len() as int);
                assert(gdshape.skip(0) =~= gdshape);
                assert(reduced(cstrides(shape@), axes@).skip(0) =~= reduced(
                    cstrides(shape@),
                    axes@,
                ));
                assert(cstrides(gdshape).skip(0) =~= cstrides(gdshape));
            }
            walk_acc2(v, &dshape, &kstr, 0, &mut out, &dstr, 0, 0, AccOp::Assign);
        },
    }
    let estr = crate::shapes::expand_strides(shape, axes, &dstr);
    let cs = strides_of(shape);
    proof {
        lemma_addr_ok_contiguous(shape@, cstrides(shape@), 0, v@.len() as int);
        assert(reduced(shape@, axes@).skip(0) =~= reduced(shape@, axes@));
        lemma_expanded_addr_ok(shape@, axes@, out@.len() as int);
        assert(shape@.skip(0) =~= shape@);
        assert(cs@.skip(0) =~= cs@);
        assert(estr@.skip(0) =~= estr@);
    }
    let md = red_mode_exec(kind);
    walk_acc2(v, shape, &cs, 0, &mut out, &estr, 0, 0, md);
    out
}

/// The input gradient buffer after the backward of a reduction: the sum
/// backward folds the output gradient, broadcast across the reduced axes,
/// into the input's physical slots; the extrema backwards hand the output
/// gradient to every position that numerically equals its slice's extremum.
pub open spec fn reduce_bwd_spec<E: Scalar>(
    kind: RedKind,
    data: Seq<E>,
    shape: Seq<usize>,
    strides: Seq<usize>,
    axes: Seq<usize>,
    outdata: Seq<E>,
    gin: Seq<E>,
    gout: Seq<E>,
) -> Seq<E> {
    let estr = expanded(shape, axes, cstrides(reduced(shape, axes)));
    match kind {
        RedKind::SumRed => acc2(gout, shape, estr, 0, gin, strides, 0, AccOp::Accum),
        _ => {
            let vin = logical(data, shape, strides);
            let voutb = logical(outdata, shape, estr);
            let goutb = logical(gout, shape, estr);
            acc2(
                sel_back(vin, voutb, goutb),
                shape,
                cstrides(shape),
                0,
                gin,
                strides,
                0,
                AccOp::Accum,
            )
        },
    }
}

/// Computes `reduce_bwd_spec`.
pub fn reduce_bwd_vec<E: Scalar>(
    kind: RedKind,
    data: &Vec<E>,
    shape: &Vec<usize>,
    strides: &Vec<usize>,
    axes: &Vec<usize>,
    outdata: &Vec<E>,
    gin: Vec<E>,
    gout: &Vec<E>,
) -> (r: Vec<E>)
    requires
        shape_ok(shape@),
        strides@.len() == shape@.len(),
        addr_ok(shape@, strides@, 0, data@.len() as int),
        axes_ok(axes@, shape@.len() as nat),
        shape_ok(reduced(shape@, axes@)),
        gin@.len() == data@.len(),
        outdata@.len() == numel(reduced(shape@, axes@)),
        gout@.len() == numel(reduced(shape@, axes@)),
    ensures
        r@ == reduce_bwd_spec(kind, data@, shape@, strides@, axes@, outdata@, gin@, gout@),
        r@.len() == gin@.len(),
    decreases 0int,
{
    let ghost gdshape = reduced(shape@, axes@);
    let ghost gestr = expanded(shape@, axes@, cstrides(gdshape));
    let n = numel_of(shape);
    let dstr = strides_of(&reduced_shape(shape, axes));
    let estr = crate::shapes::expand_strides(shape, axes, &dstr);
    match kind {
        RedKind::SumRed => {
            let mut gb = gin;
            if n == 0 {
                proof {
                    lemma_numel_zero(shape@);
                    lemma_acc2_empty(gout@, shape@, gestr, 0, gb@, strides@, 0, AccOp::Accum);
                }
                return gb;
            }
            proof {
                lemma_numel_zero(shape@);
                assert forall|j: int| 0 <= j < shape@.len() implies 1 <= #[trigger] shape@[j] by {
                    if shape@[j] == 0 {
                        assert(has_zero_extent(shape@));
                    }
                }
                assert(reduced(shape@, axes@).skip(0) =~= reduced(shape@, axes@));
                lemma_expanded_addr_ok(shape@, axes@, gout@.len() as int);
                assert(shape@.skip(0) =~= shape@);
                assert(estr@.skip(0) =~= estr@);
                assert(strides@.skip(0) =~= strides@);
            }
            walk_acc2(gout, shape, &estr, 0, &mut gb, strides, 0, 0, AccOp::Accum);
            gb
        },
        _ => {
            proof {
                if numel(shape@) >= 1 {
                    lemma_numel_zero(shape@);
                    assert forall|j: int| 0 <= j < shape@.len() implies 1 <= #[trigger] shape@[
                    j] by {
                        if shape@[j] == 0 {
                            assert(has_zero_extent(shape@));
                        }
                    }
                    assert(reduced(shape@, axes@).skip(0) =~= reduced(shape@, axes@));
                    lemma_expanded_addr_ok(shape@, axes@, outdata@.len() as int);
                    lemma_expanded_addr_ok(shape@, axes@, gout@.len() as int);
                } else {
                    lemma_numel_zero(shape@);
                    crate::shapes::lemma_addr_ok_zero_extent(
                        shape@,
                        gestr,
                        0,
                        outdata@.len() as int,
                    );
                    crate::shapes::lemma_addr_ok_zero_extent(shape@, gestr, 0, gout@.len() as int);
                }
            }
            let vin = materialize(data, shape, strides);
            let voutb = materialize(outdata, shape, &estr);
            let goutb = materialize(gout, shape, &estr);
            let gl = sel_back_vec(&vin, &voutb, &goutb);
            let mut gb = gin;
            scatter_accum(&gl, shape, strides, &mut gb);
            gb
        },
    }
}

/// Accumulates a contiguous buffer of logical gradients into a physical
/// gradient buffer through the view's strides: positions that share a
/// physical slot (zero strides) accumulate onto one another in row-major
/// order.
pub fn scatter_accum<E: Scalar>(
    gl: &Vec<E>,
    shape: &Vec<usize>,
    strides: &Vec<usize>,
    gin: &mut Vec<E>,
)
    requires
        shape_ok(shape@),
        strides@.len() == shape@.len(),
        gl@.len() == numel(shape@),
        addr_ok(shape@, strides@, 0, old(gin)@.len() as int),
    ensures
        final(gin)@ == acc2(
            gl@,
            shape@,
            cstrides(shape@),
            0,
            old(gin)@,
            strides@,
            0,
            AccOp::Accum,
        ),
        final(gin)@.len() == old(gin)@.len(),
    decreases 0int,
{
    let n = numel_of(shape);
    if n > 0 {
        let cs = strides_of(shape);
        proof {
            lemma_numel_zero(shape@);
            assert forall|j: int| 0 <= j < shape@.len() implies 1 <= #[trigger] shape@[j] by {
                if shape@[j] == 0 {
                    assert(has_zero_extent(shape@));
                }
            }
            lemma_addr_ok_contiguous(shape@, cstrides(shape@), 0, gl@.len() as int);
            assert(shape@.skip(0) =~= shape@);
            assert(cs@.skip(0) =~= cs@);
            assert(strides@.skip(0) =~= strides@);
        }
        walk_acc2(gl, shape, &cs, 0, gin, strides, 0, 0, AccOp::Accum);
    } else {
        proof {
            lemma_numel_zero(shape@);
            lemma_acc2_empty(
                gl@,
                shape@,
                cstrides(shape@),
                0,
                old(gin)@,
                strides@,
                0,
                AccOp::Accum,
            );
        }
    }
}

} // verus!
