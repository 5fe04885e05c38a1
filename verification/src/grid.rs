use vstd::prelude::*;
use crate::scalar::Scalar;
use crate::shapes::{addr_ok, cstrides, has_zero_extent, mul_ofs, numel, numel_of, shape_ok, strides_of};

verus! {

/// How the stride walker folds a source element into a destination slot.
#[derive(Clone, Copy)]
pub enum AccOp {
    /// Overwrite the slot.
    Assign,
    /// Add onto the slot.
    Accum,
    /// Keep the larger value; on a tie the slot keeps what it held.
    Larger,
    /// Keep the smaller value; on a tie the slot keeps what it held.
    Smaller,
}

/// What one folding step leaves in the destination slot.
pub open spec fn comb<E: Scalar>(m: AccOp, held: E, x: E) -> E {
    match m {
        AccOp::Assign => x,
        AccOp::Accum => E::sp_add(held, x),
        AccOp::Larger => if E::sp_lt(held, x) {
            x
        } else {
            held
        },
        AccOp::Smaller => if E::sp_lt(x, held) {
            x
        } else {
            held
        },
    }
}

/// Computes `comb`.
pub fn comb_exec<E: Scalar>(m: AccOp, held: E, x: E) -> (r: E)
    ensures
        r == comb(m, held, x),
{
    match m {
        AccOp::Assign => x,
        AccOp::Accum => E::add(held, x),
        AccOp::Larger => if E::lt(held, x) {
            x
        } else {
            held
        },
        AccOp::Smaller => if E::lt(x, held) {
            x
        } else {
            held
        },
    }
}

/// The heart of every kernel: walk the grid described by `shape` in row-major
/// order; at each position read the source element addressed through
/// `(sstr, sbase)` and fold it into the destination slot addressed through
/// `(dstr, dbase)`. Positions are visited in ascending row-major order, so
/// when several positions share a destination slot (a zero stride), later
/// positions fold onto the effect of earlier ones.
pub open spec fn acc2<E: Scalar>(
    src: Seq<E>,
    shape: Seq<usize>,
    sstr: Seq<usize>,
    sbase: int,
    dst: Seq<E>,
    dstr: Seq<usize>,
    dbase: int,
    m: AccOp,
) -> Seq<E>
    decreases shape.len() + 2, 0nat,
{
    if shape.len() == 0 {
        dst.update(dbase, comb(m, dst[dbase], src[sbase]))
    } else {
        acc2_rows(src, shape, sstr, sbase, dst, dstr, dbase, m, shape[0] as nat)
    }
}

/// The first `rows` slices of the leading axis, folded in ascending order.
pub open spec fn acc2_rows<E: Scalar>(
    src: Seq<E>,
    shape: Seq<usize>,
    sstr: Seq<usize>,
    sbase: int,
    dst: Seq<E>,
    dstr: Seq<usize>,
    dbase: int,
    m: AccOp,
    rows: nat,
) -> Seq<E>
    decreases shape.len() + 1, rows,
{
    if rows == 0 || shape.len() == 0 {
        dst
    } else {
        let prev = acc2_rows(src, shape, sstr, sbase, dst, dstr, dbase, m, (rows - 1) as nat);
        acc2(
            src,
            shape.skip(1),
            sstr.skip(1),
            sbase + (rows - 1) * sstr[0],
            prev,
            dstr.skip(1),
            dbase + (rows - 1) * dstr[0],
            m,
        )
    }
}

/// A walk over a shape with no elements changes nothing.
pub proof fn lemma_acc2_empty<E: Scalar>(
    src: Seq<E>,
    shape: Seq<usize>,
    sstr: Seq<usize>,
    sbase: int,
    dst: Seq<E>,
    dstr: Seq<usize>,
    dbase: int,
    m: AccOp,
)
    requires
        has_zero_extent(shape),
    ensures
        acc2(src, shape, sstr, sbase, dst, dstr, dbase, m) == dst,
    decreases shape.len() + 2, 0nat,
{
    if shape.len() > 0 {
        if shape[0] == 0 {
        } else {
            assert(has_zero_extent(shape.skip(1))) by {
                let j = choose|i: int| 0 <= i < shape.len() && shape[i] == 0;
                assert(shape.skip(1)[j - 1] == 0);
            }
            lemma_acc2_rows_empty(src, shape, sstr, sbase, dst, dstr, dbase, m, shape[0] as nat);
        }
    }
}

/// Helper for `lemma_acc2_empty`.
pub proof fn lemma_acc2_rows_empty<E: Scalar>(
    src: Seq<E>,
    shape: Seq<usize>,
    sstr: Seq<usize>,
    sbase: int,
    dst: Seq<E>,
    dstr: Seq<usize>,
    dbase: int,
    m: AccOp,
    rows: nat,
)
    requires
        shape.len() > 0,
        has_zero_extent(shape.skip(1)),
    ensures
        acc2_rows(src, shape, sstr, sbase, dst, dstr, dbase, m, rows) == dst,
    decreases shape.len() + 1, rows,
{
    if rows > 0 {
        lemma_acc2_rows_empty(src, shape, sstr, sbase, dst, dstr, dbase, m, (rows - 1) as nat);
        lemma_acc2_empty(
            src,
            shape.skip(1),
            sstr.skip(1),
            sbase + (rows - 1) * sstr[0],
            dst,
            dstr.skip(1),
            dbase + (rows - 1) * dstr[0],
            m,
        );
    }
}

/// Runs the stride walk from axis `d` down: the executable form of `acc2`.
#[verifier::loop_isolation(false)]
pub fn walk_acc2<E: Scalar>(
    src: &Vec<E>,
    shape: &Vec<usize>,
    sstr: &Vec<usize>,
    sbase: usize,
    dst: &mut Vec<E>,
    dstr: &Vec<usize>,
    dbase: usize,
    d: usize,
    m: AccOp,
)
    requires
        d <= shape@.len(),
        sstr@.len() == shape@.len(),
        dstr@.len() == shape@.len(),
        forall|j: int| d <= j < shape@.len() ==> 1 <= #[trigger] shape@[j],
        addr_ok(shape@.skip(d as int), sstr@.skip(d as int), sbase as int, src@.len() as int),
        addr_ok(
            shape@.skip(d as int),
            dstr@.skip(d as int),
            dbase as int,
            old(dst)@.len() as int,
        ),
    ensures
        final(dst)@ == acc2(
            src@,
            shape@.skip(d as int),
            sstr@.skip(d as int),
            sbase as int,
            old(dst)@,
            dstr@.skip(d as int),
            dbase as int,
            m,
        ),
        final(dst)@.len() == old(dst)@.len(),
    decreases shape@.len() - d,
{
    let rank = shape.len();
    let sl = src.len();
    let dl = dst.len();
    if d == rank {
        assert(shape@.skip(d as int).len() == 0);
        let x = src[sbase];
        let held = dst[dbase];
        let c = comb_exec(m, held, x);
        dst.set(dbase, c);
    } else {
        let n = shape[d];
        let ss = sstr[d];
        let ds = dstr[d];
        let ghost gs = shape@.skip(d as int);
        let ghost gss = sstr@.skip(d as int);
        let ghost gds = dstr@.skip(d as int);
        proof {
            assert(gs[0] == shape@[d as int]);
            assert(gs.skip(1) =~= shape@.skip(d as int + 1));
            assert(gss.skip(1) =~= sstr@.skip(d as int + 1));
            assert(gds.skip(1) =~= dstr@.skip(d as int + 1));
            assert(!has_zero_extent(gs.skip(1))) by {
                if has_zero_extent(gs.skip(1)) {
                    let j = choose|i: int| 0 <= i < gs.skip(1).len() && gs.skip(1)[i] == 0;
                    assert(shape@[d + 1 + j] == 0);
                }
            }
        }
        let mut i: usize = 0;
        while i < n
            invariant
                i <= n,
                dst@.len() == old(dst)@.len(),
                dst@ == acc2_rows(
                    src@,
                    gs,
                    gss,
                    sbase as int,
                    old(dst)@,
                    gds,
                    dbase as int,
                    m,
                    i as nat,
                ),
            decreases n - i,
        {
            proof {
                assert(mul_ofs(i as int, gss[0] as int) == i as int * ss as int);
                assert(mul_ofs(i as int, gds[0] as int) == i as int * ds as int);
                assert(addr_ok(
                    gs.skip(1),
                    gss.skip(1),
                    sbase as int + i as int * ss as int,
                    src@.len() as int,
                ));
                assert(addr_ok(
                    gs.skip(1),
                    gds.skip(1),
                    dbase as int + i as int * ds as int,
                    dst@.len() as int,
                ));
                crate::shapes::lemma_addr_ok_base(
                    gs.skip(1),
                    gss.skip(1),
                    sbase as int + i as int * ss as int,
                    src@.len() as int,
                );
                crate::shapes::lemma_addr_ok_base(
                    gs.skip(1),
                    gds.skip(1),
                    dbase as int + i as int * ds as int,
                    dst@.len() as int,
                );
            }
            proof {
                assert((sbase as int) + (i as int) * (ss as int) < (sl as int));
                assert((dbase as int) + (i as int) * (ds as int) < (dl as int));
            }
            let so = sbase + i * ss;
            let dbo = dbase + i * ds;
            let ghost pre = dst@;
            walk_acc2(src, shape, sstr, so, dst, dstr, dbo, d + 1, m);
            proof {
                assert(dst@ == acc2_rows(
                    src@,
                    gs,
                    gss,
                    sbase as int,
                    old(dst)@,
                    gds,
                    dbase as int,
                    m,
                    (i + 1) as nat,
                ));
            }
            i = i + 1;
        }
        proof {
            assert(gs[0] as nat == n as nat);
        }
    }
}

/// A walk whose source strides are all zero and whose destination is the
/// contiguous block at `dbase`: every slot of the block folds the one source
/// element exactly once, and nothing else moves.
pub proof fn lemma_acc2_const_src<E: Scalar>(
    src: Seq<E>,
    shape: Seq<usize>,
    sstr: Seq<usize>,
    sbase: int,
    dst: Seq<E>,
    dbase: int,
    m: AccOp,
)
    requires
        crate::shapes::shape_ok(shape),
        sstr.len() == shape.len(),
        forall|i: int| 0 <= i < sstr.len() ==> sstr[i] == 0,
        0 <= dbase,
        dbase + numel(shape) <= dst.len(),
    ensures
        acc2(src, shape, sstr, sbase, dst, cstrides(shape), dbase, m) == Seq::new(
            dst.len(),
            |j: int|
                if dbase <= j < dbase + numel(shape) {
                    comb(m, dst[j], src[sbase])
                } else {
                    dst[j]
                },
        ),
    decreases shape.len() + 2, 0nat,
{
    if shape.len() == 0 {
        assert(acc2(src, shape, sstr, sbase, dst, cstrides(shape), dbase, m) =~= Seq::new(
            dst.len(),
            |j: int|
                if dbase <= j < dbase + numel(shape) {
                    comb(m, dst[j], src[sbase])
                } else {
                    dst[j]
                },
        ));
    } else {
        lemma_acc2_const_rows(src, shape, sstr, sbase, dst, dbase, m, shape[0] as nat);
        assert((shape[0] as nat) * numel(shape.skip(1)) == numel(shape));
    }
}

/// Helper for `lemma_acc2_const_src`: the first `rows` rows cover the first
/// `rows` blocks of the destination.
proof fn lemma_acc2_const_rows<E: Scalar>(
    src: Seq<E>,
    shape: Seq<usize>,
    sstr: Seq<usize>,
    sbase: int,
    dst: Seq<E>,
    dbase: int,
    m: AccOp,
    rows: nat,
)
    requires
        crate::shapes::shape_ok(shape),
        shape.len() > 0,
        sstr.len() == shape.len(),
        forall|i: int| 0 <= i < sstr.len() ==> sstr[i] == 0,
        rows <= shape[0],
        0 <= dbase,
        dbase + numel(shape) <= dst.len(),
    ensures
        acc2_rows(src, shape, sstr, sbase, dst, cstrides(shape), dbase, m, rows) == Seq::new(
            dst.len(),
            |j: int|
                if dbase <= j < dbase + rows * numel(shape.skip(1)) {
                    comb(m, dst[j], src[sbase])
                } else {
                    dst[j]
                },
        ),
    decreases shape.len() + 1, rows,
{
    let sub = shape.skip(1);
    let msub = numel(sub);
    assert((shape[0] as nat) * msub == numel(shape));
    if rows == 0 {
        assert(acc2_rows(src, shape, sstr, sbase, dst, cstrides(shape), dbase, m, rows)
            =~= Seq::new(
            dst.len(),
            |j: int|
                if dbase <= j < dbase + 0 * msub {
                    comb(m, dst[j], src[sbase])
                } else {
                    dst[j]
                },
        ));
    } else {
        lemma_acc2_const_rows(src, shape, sstr, sbase, dst, dbase, m, (rows - 1) as nat);
        let prev = acc2_rows(
            src,
            shape,
            sstr,
            sbase,
            dst,
            cstrides(shape),
            dbase,
            m,
            (rows - 1) as nat,
        );
        crate::shapes::lemma_cstrides_skip(shape);
        crate::shapes::lemma_shape_ok_skip(shape);
        assert(sstr.skip(1) =~= Seq::new(sub.len(), |i: int| 0usize)) by {
            assert forall|i: int| 0 <= i < sub.len() implies sstr.skip(1)[i] == 0usize by {
                assert(sstr.skip(1)[i] == sstr[i + 1]);
            }
        }
        assert forall|i: int| 0 <= i < sstr.skip(1).len() implies sstr.skip(1)[i] == 0 by {
            assert(sstr.skip(1)[i] == sstr[i + 1]);
        }
        assert(cstrides(shape)[0] as nat == msub);
        assert((rows - 1) * msub + msub == rows * msub) by (nonlinear_arith);
        assert(rows * msub <= (shape[0] as nat) * msub) by (nonlinear_arith)
            requires
                rows <= shape[0],
                msub >= 0,
        ;
        assert((rows - 1) * msub >= 0) by (nonlinear_arith)
            requires
                rows >= 1,
                msub >= 0,
        ;
        lemma_acc2_const_src(
            src,
            sub,
            sstr.skip(1),
            sbase + (rows - 1) * 0,
            prev,
            dbase + (rows - 1) * cstrides(shape)[0],
            m,
        );
        assert((rows - 1) * (cstrides(shape)[0] as int) == (rows - 1) * msub)
            by (nonlinear_arith)
            requires
                cstrides(shape)[0] as nat == msub,
        ;
        assert(acc2_rows(src, shape, sstr, sbase, dst, cstrides(shape), dbase, m, rows)
            =~= Seq::new(
            dst.len(),
            |j: int|
                if dbase <= j < dbase + rows * msub {
                    comb(m, dst[j], src[sbase])
                } else {
                    dst[j]
                },
        ));
    }
}

/// A walk whose source and destination are both contiguous blocks: slot
/// `dbase + j` folds element `sbase + j` exactly once, and nothing else
/// moves.
pub proof fn lemma_acc2_copy_contig<E: Scalar>(
    src: Seq<E>,
    shape: Seq<usize>,
    sbase: int,
    dst: Seq<E>,
    dbase: int,
    m: AccOp,
)
    requires
        crate::shapes::shape_ok(shape),
        0 <= sbase,
        sbase + numel(shape) <= src.len(),
        0 <= dbase,
        dbase + numel(shape) <= dst.len(),
    ensures
        acc2(src, shape, cstrides(shape), sbase, dst, cstrides(shape), dbase, m) == Seq::new(
            dst.len(),
            |j: int|
                if dbase <= j < dbase + numel(shape) {
                    comb(m, dst[j], src[sbase + (j - dbase)])
                } else {
                    dst[j]
                },
        ),
    decreases shape.len() + 2, 0nat,
{
    if shape.len() == 0 {
        assert(acc2(src, shape, cstrides(shape), sbase, dst, cstrides(shape), dbase, m)
            =~= Seq::new(
            dst.len(),
            |j: int|
                if dbase <= j < dbase + numel(shape) {
                    comb(m, dst[j], src[sbase + (j - dbase)])
                } else {
                    dst[j]
                },
        ));
    } else {
        lemma_acc2_copy_rows(src, shape, sbase, dst, dbase, m, shape[0] as nat);
        assert((shape[0] as nat) * numel(shape.skip(1)) == numel(shape));
    }
}

/// Helper for `lemma_acc2_copy_contig`.
proof fn lemma_acc2_copy_rows<E: Scalar>(
    src: Seq<E>,
    shape: Seq<usize>,
    sbase: int,
    dst: Seq<E>,
    dbase: int,
    m: AccOp,
    rows: nat,
)
    requires
        crate::shapes::shape_ok(shape),
        shape.len() > 0,
        rows <= shape[0],
        0 <= sbase,
        sbase + numel(shape) <= src.len(),
        0 <= dbase,
        dbase + numel(shape) <= dst.len(),
    ensures
        acc2_rows(src, shape, cstrides(shape), sbase, dst, cstrides(shape), dbase, m, rows)
            == Seq::new(
            dst.len(),
            |j: int|
                if dbase <= j < dbase + rows * numel(shape.skip(1)) {
                    comb(m, dst[j], src[sbase + (j - dbase)])
                } else {
                    dst[j]
                },
        ),
    decreases shape.len() + 1, rows,
{
    let sub = shape.skip(1);
    let msub = numel(sub);
    assert((shape[0] as nat) * msub == numel(shape));
    if rows == 0 {
        assert(acc2_rows(src, shape, cstrides(shape), sbase, dst, cstrides(shape), dbase, m, rows)
            =~= Seq::new(
            dst.len(),
            |j: int|
                if dbase <= j < dbase + 0 * msub {
                    comb(m, dst[j], src[sbase + (j - dbase)])
                } else {
                    dst[j]
                },
        ));
    } else {
        lemma_acc2_copy_rows(src, shape, sbase, dst, dbase, m, (rows - 1) as nat);
        let prev = acc2_rows(
            src,
            shape,
            cstrides(shape),
            sbase,
            dst,
            cstrides(shape),
            dbase,
            m,
            (rows - 1) as nat,
        );
        crate::shapes::lemma_cstrides_skip(shape);
        crate::shapes::lemma_shape_ok_skip(shape);
        assert(cstrides(shape)[0] as nat == msub);
        assert((rows - 1) * msub + msub == rows * msub) by (nonlinear_arith);
        assert(rows * msub <= (shape[0] as nat) * msub) by (nonlinear_arith)
            requires
                rows <= shape[0],
                msub >= 0,
        ;
        assert((rows - 1) * msub >= 0) by (nonlinear_arith)
            requires
                rows >= 1,
                msub >= 0,
        ;
        assert((rows - 1) * (cstrides(shape)[0] as int) == (rows - 1) * msub)
            by (nonlinear_arith)
            requires
                cstrides(shape)[0] as nat == msub,
        ;
        lemma_acc2_copy_contig(
            src,
            sub,
            sbase + (rows - 1) * msub,
            prev,
            dbase + (rows - 1) * msub,
            m,
        );
        assert(acc2_rows(src, shape, cstrides(shape), sbase, dst, cstrides(shape), dbase, m, rows)
            =~= Seq::new(
            dst.len(),
            |j: int|
                if dbase <= j < dbase + rows * msub {
                    comb(m, dst[j], src[sbase + (j - dbase)])
                } else {
                    dst[j]
                },
        ));
    }
}

/// The element a view places at logical position `q`: peel the leading
/// axis off the position and step the base by the axis the position selects.
pub open spec fn blockval<E: Scalar>(
    src: Seq<E>,
    shape: Seq<usize>,
    sstr: Seq<usize>,
    sbase: int,
    q: int,
) -> E
    decreases shape.len(),
{
    if shape.len() == 0 {
        src[sbase]
    } else {
        let msub = numel(shape.skip(1)) as int;
        blockval(
            src,
            shape.skip(1),
            sstr.skip(1),
            sbase + (q / msub) * sstr[0],
            q % msub,
        )
    }
}

/// An overwriting walk into the contiguous block at `dbase` places the
/// view's element for each position into its slot, and moves nothing else.
pub proof fn lemma_acc2_assign_contig<E: Scalar>(
    src: Seq<E>,
    shape: Seq<usize>,
    sstr: Seq<usize>,
    sbase: int,
    dst: Seq<E>,
    dbase: int,
)
    requires
        crate::shapes::shape_ok(shape),
        sstr.len() == shape.len(),
        0 <= dbase,
        dbase + numel(shape) <= dst.len(),
    ensures
        acc2(src, shape, sstr, sbase, dst, cstrides(shape), dbase, AccOp::Assign) == Seq::new(
            dst.len(),
            |j: int|
                if dbase <= j < dbase + numel(shape) {
                    blockval(src, shape, sstr, sbase, j - dbase)
                } else {
                    dst[j]
                },
        ),
    decreases shape.len() + 2, 0nat,
{
    if shape.len() == 0 {
        assert(acc2(src, shape, sstr, sbase, dst, cstrides(shape), dbase, AccOp::Assign)
            =~= Seq::new(
            dst.len(),
            |j: int|
                if dbase <= j < dbase + numel(shape) {
                    blockval(src, shape, sstr, sbase, j - dbase)
                } else {
                    dst[j]
                },
        ));
    } else {
        lemma_acc2_assign_rows(src, shape, sstr, sbase, dst, dbase, shape[0] as nat);
        assert((shape[0] as nat) * numel(shape.skip(1)) == numel(shape));
    }
}

/// Helper for `lemma_acc2_assign_contig`.
proof fn lemma_acc2_assign_rows<E: Scalar>(
    src: Seq<E>,
    shape: Seq<usize>,
    sstr: Seq<usize>,
    sbase: int,
    dst: Seq<E>,
    dbase: int,
    rows: nat,
)
    requires
        crate::shapes::shape_ok(shape),
        shape.len() > 0,
        sstr.len() == shape.len(),
        rows <= shape[0],
        0 <= dbase,
        dbase + numel(shape) <= dst.len(),
    ensures
        acc2_rows(src, shape, sstr, sbase, dst, cstrides(shape), dbase, AccOp::Assign, rows)
            == Seq::new(
            dst.len(),
            |j: int|
                if dbase <= j < dbase + rows * numel(shape.skip(1)) {
                    blockval(src, shape, sstr, sbase, j - dbase)
                } else {
                    dst[j]
                },
        ),
    decreases shape.len() + 1, rows,
{
    let sub = shape.skip(1);
    let msub = numel(sub);
    assert((shape[0] as nat) * msub == numel(shape));
    if rows == 0 {
        assert(acc2_rows(src, shape, sstr, sbase, dst, cstrides(shape), dbase, AccOp::Assign, rows)
            =~= Seq::new(
            dst.len(),
            |j: int|
                if dbase <= j < dbase + 0 * msub {
                    blockval(src, shape, sstr, sbase, j - dbase)
                } else {
                    dst[j]
                },
        ));
    } else {
        lemma_acc2_assign_rows(src, shape, sstr, sbase, dst, dbase, (rows - 1) as nat);
        let prev = acc2_rows(
            src,
            shape,
            sstr,
            sbase,
            dst,
            cstrides(shape),
            dbase,
            AccOp::Assign,
            (rows - 1) as nat,
        );
        crate::shapes::lemma_cstrides_skip(shape);
        crate::shapes::lemma_shape_ok_skip(shape);
        assert(cstrides(shape)[0] as nat == msub);
        assert((rows - 1) * msub + msub == rows * msub) by (nonlinear_arith);
        assert(rows * msub <= (shape[0] as nat) * msub) by (nonlinear_arith)
            requires
                rows <= shape[0],
                msub >= 0,
        ;
        assert((rows - 1) * msub >= 0) by (nonlinear_arith)
            requires
                rows >= 1,
                msub >= 0,
        ;
        assert((rows - 1) * (cstrides(shape)[0] as int) == (rows - 1) * msub)
            by (nonlinear_arith)
            requires
                cstrides(shape)[0] as nat == msub,
        ;
        lemma_acc2_assign_contig(
            src,
            sub,
            sstr.skip(1),
            sbase + (rows - 1) * sstr[0],
            prev,
            dbase + (rows - 1) * msub,
        );
        if msub > 0 {
            assert forall|q: int| (rows - 1) * msub <= q < rows * msub implies blockval(
                src,
                shape,
                sstr,
                sbase,
                q,
            ) == blockval(
                src,
                sub,
                sstr.skip(1),
                sbase + (rows - 1) * sstr[0],
                q - (rows - 1) * msub,
            ) by {
                vstd::arithmetic::div_mod::lemma_fundamental_div_mod_converse(
                    q,
                    msub as int,
                    rows - 1,
                    q - (rows - 1) * msub,
                );
            }
        }
        assert(acc2_rows(src, shape, sstr, sbase, dst, cstrides(shape), dbase, AccOp::Assign, rows)
            =~= Seq::new(
            dst.len(),
            |j: int|
                if dbase <= j < dbase + rows * msub {
                    blockval(src, shape, sstr, sbase, j - dbase)
                } else {
                    dst[j]
                },
        ));
    }
}

/// Pointwise form of a view's logical elements: position `q` holds the
/// element the strides address for it.
pub proof fn lemma_logical_index<E: Scalar>(data: Seq<E>, shape: Seq<usize>, strides: Seq<usize>)
    requires
        crate::shapes::shape_ok(shape),
        strides.len() == shape.len(),
    ensures
        logical(data, shape, strides).len() == numel(shape),
        forall|q: int|
            0 <= q < numel(shape) ==> logical(data, shape, strides)[q] == blockval(
                data,
                shape,
                strides,
                0,
                q,
            ),
{
    lemma_acc2_assign_contig(data, shape, strides, 0, zero_seq::<E>(numel(shape)), 0);
}

/// The logical elements of a contiguous view are its buffer itself.
pub proof fn lemma_logical_contiguous<E: Scalar>(data: Seq<E>, shape: Seq<usize>)
    requires
        crate::shapes::shape_ok(shape),
        data.len() == numel(shape),
    ensures
        logical(data, shape, cstrides(shape)) == data,
{
    lemma_acc2_copy_contig(
        data,
        shape,
        0,
        zero_seq::<E>(numel(shape)),
        0,
        AccOp::Assign,
    );
    assert(logical(data, shape, cstrides(shape)) =~= data);
}

/// The all-zero sequence of a given length.
pub open spec fn zero_seq<E: Scalar>(n: nat) -> Seq<E> {
    Seq::new(n, |i: int| E::sp_zero())
}

/// A buffer of `n` zero elements.
pub fn zeros_vec<E: Scalar>(n: usize) -> (r: Vec<E>)
    ensures
        r@ == zero_seq::<E>(n as nat),
{
    let mut r: Vec<E> = Vec::new();
    let mut i: usize = 0;
    while i < n
        invariant
            i <= n,
            r@.len() == i,
            forall|j: int| 0 <= j < i ==> r@[j] == E::sp_zero(),
        decreases n - i,
    {
        r.push(E::zero());
        i = i + 1;
    }
    assert(r@ =~= zero_seq::<E>(n as nat));
    r
}

/// The all-one sequence of a given length.
pub open spec fn one_seq<E: Scalar>(n: nat) -> Seq<E> {
    Seq::new(n, |i: int| E::sp_one())
}

/// A buffer of `n` one elements.
pub fn ones_vec<E: Scalar>(n: usize) -> (r: Vec<E>)
    ensures
        r@ == one_seq::<E>(n as nat),
{
    let mut r: Vec<E> = Vec::new();
    let mut i: usize = 0;
    while i < n
        invariant
            i <= n,
            r@.len() == i,
            forall|j: int| 0 <= j < i ==> r@[j] == E::sp_one(),
        decreases n - i,
    {
        r.push(E::one());
        i = i + 1;
    }
    assert(r@ =~= one_seq::<E>(n as nat));
    r
}

/// An element-for-element copy of a buffer.
pub fn copy_vec<E: Scalar>(v: &Vec<E>) -> (r: Vec<E>)
    ensures
        r@ == v@,
{
    let n = v.len();
    let mut r: Vec<E> = Vec::new();
    let mut i: usize = 0;
    while i < n
        invariant
            i <= n,
            n == v@.len(),
            r@ == v@.take(i as int),
        decreases n - i,
    {
        r.push(v[i]);
        proof {
            assert(r@ =~= v@.take(i as int + 1));
        }
        i = i + 1;
    }
    assert(v@.take(n as int) =~= v@);
    r
}

/// Copies a `usize` vector.
pub fn copy_usizes(v: &Vec<usize>) -> (r: Vec<usize>)
    ensures
        r@ == v@,
{
    let n = v.len();
    let mut r: Vec<usize> = Vec::new();
    let mut i: usize = 0;
    while i < n
        invariant
            i <= n,
            n == v@.len(),
            r@ == v@.take(i as int),
        decreases n - i,
    {
        r.push(v[i]);
        proof {
            assert(r@ =~= v@.take(i as int + 1));
        }
        i = i + 1;
    }
    assert(v@.take(n as int) =~= v@);
    r
}

/// The row-major sequence of logical elements seen through a
/// shape/stride view of a flat buffer.
pub open spec fn logical<E: Scalar>(data: Seq<E>, shape: Seq<usize>, strides: Seq<usize>) -> Seq<
    E,
> {
    acc2(
        data,
        shape,
        strides,
        0,
        zero_seq(numel(shape)),
        cstrides(shape),
        0,
        AccOp::Assign,
    )
}

/// Gathers the logical elements of a view into a fresh contiguous buffer.
pub fn materialize<E: Scalar>(
    data: &Vec<E>,
    shape: &Vec<usize>,
    strides: &Vec<usize>,
) -> (r: Vec<E>)
    requires
        shape_ok(shape@),
        strides@.len() == shape@.len(),
        addr_ok(shape@, strides@, 0, data@.len() as int),
    ensures
        r@ == logical(data@, shape@, strides@),
        r@.len() == numel(shape@),
{
    let n = numel_of(shape);
    let mut r = zeros_vec::<E>(n);
    if n > 0 {
        let cs = strides_of(shape);
        proof {
            crate::shapes::lemma_numel_zero(shape@);
            assert(forall|j: int| 0 <= j < shape@.len() ==> 1 <= #[trigger] shape@[j]) by {
                assert forall|j: int| 0 <= j < shape@.len() implies 1 <= #[trigger] shape@[j] by {
                    if shape@[j] == 0 {
                        assert(has_zero_extent(shape@));
                    }
                }
            }
            assert(shape@.skip(0) =~= shape@);
            crate::shapes::lemma_addr_ok_contiguous(
                shape@,
                cstrides(shape@),
                0,
                r@.len() as int,
            );
            assert(strides@.skip(0) =~= strides@);
            assert(cs@.skip(0) =~= cs@);
        }
        walk_acc2(data, shape, strides, 0, &mut r, &cs, 0, 0, AccOp::Assign);
    } else {
        proof {
            crate::shapes::lemma_numel_zero(shape@);
            lemma_acc2_empty(
                data@,
                shape@,
                strides@,
                0,
                zero_seq::<E>(numel(shape@)),
                cstrides(shape@),
                0,
                AccOp::Assign,
            );
            assert(r@ =~= logical(data@, shape@, strides@));
        }
    }
    r
}

} // verus!
