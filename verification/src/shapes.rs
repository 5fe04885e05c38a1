use vstd::prelude::*;

verus! {

/// Largest supported rank.
pub const MAX_RANK: usize = 6;

/// Number of logical elements described by a shape: the product of its
/// extents. The empty shape (rank 0) describes one element.
pub open spec fn numel(shape: Seq<usize>) -> nat
    decreases shape.len(),
{
    if shape.len() == 0 {
        1
    } else {
        shape[0] as nat * numel(shape.skip(1))
    }
}

/// A shape this crate accepts: bounded rank, and no suffix of it describes
/// more elements than a `usize` can count. The suffix condition is what the
/// row-major stride vector needs in order to be representable.
pub open spec fn shape_ok(shape: Seq<usize>) -> bool {
    &&& shape.len() <= MAX_RANK
    &&& forall|i: int| 0 <= i <= shape.len() ==> numel(#[trigger] shape.skip(i)) <= usize::MAX
}

/// Whether any extent of the shape is zero, i.e. whether it has no elements.
pub open spec fn has_zero_extent(shape: Seq<usize>) -> bool {
    exists|i: int| 0 <= i < shape.len() && shape[i] == 0
}

pub proof fn lemma_numel_zero(shape: Seq<usize>)
    ensures
        numel(shape) == 0 <==> has_zero_extent(shape),
    decreases shape.len(),
{
    if shape.len() > 0 {
        lemma_numel_zero(shape.skip(1));
        assert(numel(shape) == 0 <==> shape[0] == 0 || numel(shape.skip(1)) == 0)
            by (nonlinear_arith)
            requires
                numel(shape) == shape[0] as nat * numel(shape.skip(1)),
        ;
        if shape[0] == 0 {
            assert(has_zero_extent(shape));
        } else {
            if numel(shape.skip(1)) == 0 {
                let j = choose|i: int|
                    0 <= i < shape.skip(1).len() && shape.skip(1)[i] == 0;
                assert(shape[j + 1] == 0);
                assert(has_zero_extent(shape));
            } else if has_zero_extent(shape) {
                let j = choose|i: int| 0 <= i < shape.len() && shape[i] == 0;
                assert(shape.skip(1)[j - 1] == 0);
            }
        }
    }
}

/// The row-major (contiguous) stride vector of a shape: each axis steps by
/// the number of elements the axes after it describe.
pub open spec fn cstrides(shape: Seq<usize>) -> Seq<usize> {
    Seq::new(shape.len(), |i: int| numel(shape.skip(i + 1)) as usize)
}

proof fn lemma_skip_skip<A>(s: Seq<A>, i: int, j: int)
    requires
        0 <= i,
        0 <= j,
        i + j <= s.len(),
    ensures
        s.skip(i).skip(j) == s.skip(i + j),
{
    assert(s.skip(i).skip(j) =~= s.skip(i + j));
}

/// Computes the number of logical elements of a shape.
pub fn numel_of(shape: &Vec<usize>) -> (n: usize)
    requires
        shape_ok(shape@),
    ensures
        n as nat == numel(shape@),
{
    let rank = shape.len();
    let mut acc: usize = 1;
    let mut i: usize = rank;
    assert(shape@.skip(rank as int) =~= Seq::<usize>::empty());
    while i > 0
        invariant
            i <= rank,
            rank == shape@.len(),
            shape_ok(shape@),
            acc as nat == numel(shape@.skip(i as int)),
        decreases i,
    {
        i = i - 1;
        proof {
            assert(shape@.skip(i as int).skip(1) =~= shape@.skip(i as int + 1));
            assert(numel(shape@.skip(i as int)) == shape@[i as int] as nat * numel(
                shape@.skip(i as int + 1),
            ));
        }
        acc = shape[i].checked_mul(acc).unwrap();
    }
    assert(shape@.skip(0) =~= shape@);
    acc
}

/// Computes the row-major stride vector of a shape.
pub fn strides_of(shape: &Vec<usize>) -> (r: Vec<usize>)
    requires
        shape_ok(shape@),
    ensures
        r@ == cstrides(shape@),
        r@.len() == shape@.len(),
{
    let rank = shape.len();
    let mut r: Vec<usize> = Vec::new();
    let mut k: usize = 0;
    while k < rank
        invariant
            k <= rank,
            r@.len() == k,
        decreases rank - k,
    {
        r.push(0usize);
        k = k + 1;
    }
    let mut acc: usize = 1;
    let mut i: usize = rank;
    assert(shape@.skip(rank as int) =~= Seq::<usize>::empty());
    while i > 0
        invariant
            i <= rank,
            rank == shape@.len(),
            shape_ok(shape@),
            r@.len() == rank,
            acc as nat == numel(shape@.skip(i as int)),
            forall|j: int| i <= j < rank ==> r@[j] as nat == numel(shape@.skip(j + 1)),
        decreases i,
    {
        i = i - 1;
        r.set(i, acc);
        proof {
            assert(shape@.skip(i as int).skip(1) =~= shape@.skip(i as int + 1));
            assert(numel(shape@.skip(i as int)) == shape@[i as int] as nat * numel(
                shape@.skip(i as int + 1),
            ));
        }
        acc = shape[i].checked_mul(acc).unwrap();
    }
    assert(r@ =~= cstrides(shape@));
    r
}

/// The row-major strides of a shape's tail are the tail of its row-major
/// strides.
pub proof fn lemma_cstrides_skip(shape: Seq<usize>)
    requires
        shape.len() > 0,
    ensures
        cstrides(shape).skip(1) == cstrides(shape.skip(1)),
{
    assert forall|j: int| 0 <= j < shape.skip(1).len() implies cstrides(shape).skip(1)[j]
        == cstrides(shape.skip(1))[j] by {
        lemma_skip_skip(shape, 1, j + 1);
    }
    assert(cstrides(shape).skip(1) =~= cstrides(shape.skip(1)));
}

/// Suffix bounds survive dropping the leading axis.
pub proof fn lemma_shape_ok_skip(shape: Seq<usize>)
    requires
        shape_ok(shape),
        shape.len() > 0,
    ensures
        shape_ok(shape.skip(1)),
{
    assert forall|i: int| 0 <= i <= shape.skip(1).len() implies numel(
        #[trigger] shape.skip(1).skip(i),
    ) <= usize::MAX by {
        lemma_skip_skip(shape, 1, i);
        assert(numel(shape.skip(1 + i)) <= usize::MAX);
    }
}

/// Whether the axis list mentions axis `i`.
pub open spec fn ax_has(axes: Seq<usize>, i: int) -> bool {
    exists|k: int| 0 <= k < axes.len() && axes[k] == i
}

/// A valid axis list for a shape of rank `rank`: strictly increasing and in
/// range.
pub open spec fn axes_ok(axes: Seq<usize>, rank: nat) -> bool {
    &&& forall|k: int| 0 <= k < axes.len() ==> (#[trigger] axes[k]) < rank
    &&& forall|k1: int, k2: int|
        0 <= k1 < k2 < axes.len() ==> axes[k1] < axes[k2]
}

/// Whether the axis list mentions axis `i`.
pub fn axes_contain(axes: &Vec<usize>, i: usize) -> (r: bool)
    ensures
        r == ax_has(axes@, i as int),
{
    let n = axes.len();
    let mut k: usize = 0;
    while k < n
        invariant
            k <= n,
            n == axes@.len(),
            forall|j: int| 0 <= j < k ==> axes@[j] != i,
        decreases n - k,
    {
        if axes[k] == i {
            return true;
        }
        k = k + 1;
    }
    false
}

/// The first `i` axes of `shape` with the axes listed in `axes` removed,
/// order kept.
pub open spec fn kept_up_to(shape: Seq<usize>, axes: Seq<usize>, i: int) -> Seq<usize>
    decreases i,
{
    if i <= 0 {
        Seq::empty()
    } else if ax_has(axes, i - 1) {
        kept_up_to(shape, axes, i - 1)
    } else {
        kept_up_to(shape, axes, i - 1).push(shape[i - 1])
    }
}

/// A shape with the listed axes removed.
pub open spec fn reduced(shape: Seq<usize>, axes: Seq<usize>) -> Seq<usize> {
    kept_up_to(shape, axes, shape.len() as int)
}

/// Computes the shape with the listed axes removed.
pub fn reduced_shape(shape: &Vec<usize>, axes: &Vec<usize>) -> (r: Vec<usize>)
    ensures
        r@ == reduced(shape@, axes@),
{
    let rank = shape.len();
    let mut r: Vec<usize> = Vec::new();
    let mut i: usize = 0;
    while i < rank
        invariant
            i <= rank,
            rank == shape@.len(),
            r@ == kept_up_to(shape@, axes@, i as int),
        decreases rank - i,
    {
        if !axes_contain(axes, i) {
            r.push(shape[i]);
        }
        i = i + 1;
    }
    r
}

/// A stride vector over the full rank, built from a stride vector `kstr` over
/// the kept axes: removed axes step by zero, kept axes step as `kstr` says.
pub open spec fn expanded(shape: Seq<usize>, axes: Seq<usize>, kstr: Seq<usize>) -> Seq<usize> {
    Seq::new(
        shape.len(),
        |i: int|
            if ax_has(axes, i) {
                0usize
            } else {
                kstr[kept_up_to(shape, axes, i).len() as int]
            },
    )
}

/// Computes `expanded(shape, axes, kstr)`.
pub fn expand_strides(shape: &Vec<usize>, axes: &Vec<usize>, kstr: &Vec<usize>) -> (r: Vec<usize>)
    requires
        kstr@.len() == reduced(shape@, axes@).len(),
        axes_ok(axes@, shape@.len() as nat),
    ensures
        r@ == expanded(shape@, axes@, kstr@),
        r@.len() == shape@.len(),
{
    let rank = shape.len();
    let mut r: Vec<usize> = Vec::new();
    let mut i: usize = 0;
    let mut k: usize = 0;
    while i < rank
        invariant
            i <= rank,
            rank == shape@.len(),
            kstr@.len() == reduced(shape@, axes@).len(),
            k as int == kept_up_to(shape@, axes@, i as int).len(),
            r@ == expanded(shape@, axes@, kstr@).take(i as int),
        decreases rank - i,
    {
        proof {
            lemma_kept_le(shape@, axes@, i as int, rank as int);
        }
        if axes_contain(axes, i) {
            r.push(0usize);
        } else {
            proof {
                lemma_kept_le(shape@, axes@, i as int + 1, rank as int);
                assert(kept_up_to(shape@, axes@, i as int + 1).len() == k + 1);
            }
            r.push(kstr[k]);
            k = k + 1;
        }
        proof {
            assert(r@ =~= expanded(shape@, axes@, kstr@).take(i as int + 1));
        }
        i = i + 1;
    }
    proof {
        assert(expanded(shape@, axes@, kstr@).take(rank as int) =~= expanded(
            shape@,
            axes@,
            kstr@,
        ));
    }
    r
}

/// Prefixes keep no more axes than longer prefixes.
pub proof fn lemma_kept_le(shape: Seq<usize>, axes: Seq<usize>, i: int, j: int)
    requires
        i <= j,
    ensures
        kept_up_to(shape, axes, i).len() <= kept_up_to(shape, axes, j).len(),
        kept_up_to(shape, axes, j).len() <= if j >= 0 { j } else { 0 },
    decreases j,
{
    if j > 0 && i < j {
        lemma_kept_le(shape, axes, i, j - 1);
    } else if j > 0 {
        lemma_kept_le(shape, axes, i - 1, j - 1);
    }
}

/// The largest offset the walk can add to a base: every axis stepped to its
/// last index.
pub open spec fn max_ofs(shape: Seq<usize>, strides: Seq<usize>) -> int
    decreases shape.len(),
{
    if shape.len() == 0 {
        0
    } else {
        (shape[0] - 1) * strides[0] + max_ofs(shape.skip(1), strides.skip(1))
    }
}

/// Every offset reachable from `base` by stepping each axis within its extent
/// lands inside a buffer of length `len`.
/// The offset contributed by taking index `i` on an axis of stride `s`.
/// A named function so that quantifiers over axis indices have a trigger.
pub open spec fn mul_ofs(i: int, s: int) -> int {
    i * s
}

pub open spec fn addr_ok(
    shape: Seq<usize>,
    strides: Seq<usize>,
    base: int,
    len: int,
) -> bool
    decreases shape.len(),
{
    if shape.len() == 0 {
        0 <= base < len
    } else {
        forall|i: int|
            0 <= i < shape[0] ==> addr_ok(
                shape.skip(1),
                strides.skip(1),
                base + #[trigger] mul_ofs(i, strides[0] as int),
                len,
            )
    }
}

/// When no extent is zero, the base offset itself is addressed.
pub proof fn lemma_addr_ok_base(shape: Seq<usize>, strides: Seq<usize>, base: int, len: int)
    requires
        addr_ok(shape, strides, base, len),
        !has_zero_extent(shape),
    ensures
        0 <= base < len,
    decreases shape.len(),
{
    if shape.len() > 0 {
        assert(shape[0] != 0);
        assert(mul_ofs(0, strides[0] as int) == 0);
        assert(addr_ok(shape.skip(1), strides.skip(1), base, len));
        assert(!has_zero_extent(shape.skip(1))) by {
            if has_zero_extent(shape.skip(1)) {
                let j = choose|i: int|
                    0 <= i < shape.skip(1).len() && shape.skip(1)[i] == 0;
                assert(shape[j + 1] == 0);
            }
        }
        lemma_addr_ok_base(shape.skip(1), strides.skip(1), base, len);
    }
}

/// Addressability survives moving the base and the bound up together.
pub proof fn lemma_addr_ok_shift(
    shape: Seq<usize>,
    strides: Seq<usize>,
    base: int,
    len: int,
    d: int,
)
    requires
        addr_ok(shape, strides, base, len),
        d >= 0,
    ensures
        addr_ok(shape, strides, base + d, len + d),
    decreases shape.len(),
{
    if shape.len() == 0 {
    } else {
        assert forall|i: int| 0 <= i < shape[0] implies addr_ok(
            shape.skip(1),
            strides.skip(1),
            base + d + #[trigger] mul_ofs(i, strides[0] as int),
            len + d,
        ) by {
            assert(addr_ok(
                shape.skip(1),
                strides.skip(1),
                base + mul_ofs(i, strides[0] as int),
                len,
            ));
            lemma_addr_ok_shift(
                shape.skip(1),
                strides.skip(1),
                base + mul_ofs(i, strides[0] as int),
                len,
                d,
            );
        }
    }
}

/// Addressability survives widening the buffer.
pub proof fn lemma_addr_ok_widen(
    shape: Seq<usize>,
    strides: Seq<usize>,
    base: int,
    l1: int,
    l2: int,
)
    requires
        addr_ok(shape, strides, base, l1),
        l1 <= l2,
    ensures
        addr_ok(shape, strides, base, l2),
    decreases shape.len(),
{
    if shape.len() == 0 {
    } else {
        assert forall|i: int| 0 <= i < shape[0] implies addr_ok(
            shape.skip(1),
            strides.skip(1),
            base + #[trigger] mul_ofs(i, strides[0] as int),
            l2,
        ) by {
            assert(addr_ok(
                shape.skip(1),
                strides.skip(1),
                base + mul_ofs(i, strides[0] as int),
                l1,
            ));
            lemma_addr_ok_widen(
                shape.skip(1),
                strides.skip(1),
                base + mul_ofs(i, strides[0] as int),
                l1,
                l2,
            );
        }
    }
}

/// A shape without elements is addressable in any buffer: the walk reaches
/// no slot.
pub proof fn lemma_addr_ok_zero_extent(
    shape: Seq<usize>,
    strides: Seq<usize>,
    base: int,
    len: int,
)
    requires
        has_zero_extent(shape),
    ensures
        addr_ok(shape, strides, base, len),
    decreases shape.len(),
{
    if shape[0] == 0 {
    } else {
        assert(has_zero_extent(shape.skip(1))) by {
            let j = choose|i: int| 0 <= i < shape.len() && shape[i] == 0;
            assert(shape.skip(1)[j - 1] == 0);
        }
        assert forall|i: int| 0 <= i < shape[0] implies addr_ok(
            shape.skip(1),
            strides.skip(1),
            base + #[trigger] mul_ofs(i, strides[0] as int),
            len,
        ) by {
            lemma_addr_ok_zero_extent(
                shape.skip(1),
                strides.skip(1),
                base + mul_ofs(i, strides[0] as int),
                len,
            );
        }
    }
}

/// A bound on the farthest offset gives addressability.
pub proof fn lemma_addr_ok_from_bound(
    shape: Seq<usize>,
    strides: Seq<usize>,
    base: int,
    len: int,
)
    requires
        shape.len() == strides.len(),
        forall|j: int| 0 <= j < shape.len() ==> 1 <= #[trigger] shape[j],
        0 <= base,
        base + max_ofs(shape, strides) < len,
    ensures
        addr_ok(shape, strides, base, len),
    decreases shape.len(),
{
    if shape.len() == 0 {
    } else {
        assert(max_ofs(shape, strides) >= (shape[0] - 1) * strides[0]) by {
            lemma_max_ofs_nonneg(shape.skip(1), strides.skip(1));
        }
        assert forall|i: int| 0 <= i < shape[0] implies addr_ok(
            shape.skip(1),
            strides.skip(1),
            base + #[trigger] mul_ofs(i, strides[0] as int),
            len,
        ) by {
            assert(mul_ofs(i, strides[0] as int) == i * strides[0]);
            assert(i * strides[0] <= (shape[0] - 1) * strides[0]) by (nonlinear_arith)
                requires
                    0 <= i <= shape[0] - 1,
                    strides[0] >= 0,
            ;
            assert(i * strides[0] >= 0) by (nonlinear_arith)
                requires
                    0 <= i,
                    strides[0] >= 0,
            ;
            assert forall|j: int| 0 <= j < shape.skip(1).len() implies 1 <= #[trigger] shape.skip(
                1,
            )[j] by {
                assert(shape.skip(1)[j] == shape[j + 1]);
            }
            lemma_addr_ok_from_bound(
                shape.skip(1),
                strides.skip(1),
                base + i * strides[0],
                len,
            );
        }
    }
}

/// With every extent at least one, the farthest offset is not negative.
pub proof fn lemma_max_ofs_nonneg(shape: Seq<usize>, strides: Seq<usize>)
    requires
        forall|j: int| 0 <= j < shape.len() ==> 1 <= #[trigger] shape[j],
    ensures
        max_ofs(shape, strides) >= 0,
    decreases shape.len(),
{
    if shape.len() > 0 {
        assert forall|j: int| 0 <= j < shape.skip(1).len() implies 1 <= #[trigger] shape.skip(
            1,
        )[j] by {
            assert(shape.skip(1)[j] == shape[j + 1]);
        }
        lemma_max_ofs_nonneg(shape.skip(1), strides.skip(1));
        assert((shape[0] - 1) * strides[0] >= 0) by (nonlinear_arith)
            requires
                shape[0] >= 1,
                strides[0] >= 0,
        ;
    }
}

/// Addressability bounds the farthest offset.
pub proof fn lemma_addr_ok_to_bound(
    shape: Seq<usize>,
    strides: Seq<usize>,
    base: int,
    len: int,
)
    requires
        addr_ok(shape, strides, base, len),
        forall|j: int| 0 <= j < shape.len() ==> 1 <= #[trigger] shape[j],
    ensures
        0 <= base,
        base + max_ofs(shape, strides) < len,
    decreases shape.len(),
{
    if shape.len() == 0 {
    } else {
        let i = shape[0] - 1;
        assert(mul_ofs(i, strides[0] as int) == i * strides[0]);
        assert(addr_ok(shape.skip(1), strides.skip(1), base + i * strides[0], len));
        assert forall|j: int| 0 <= j < shape.skip(1).len() implies 1 <= #[trigger] shape.skip(
            1,
        )[j] by {
            assert(shape.skip(1)[j] == shape[j + 1]);
        }
        lemma_addr_ok_to_bound(shape.skip(1), strides.skip(1), base + i * strides[0], len);
        assert(i * strides[0] >= 0) by (nonlinear_arith)
            requires
                0 <= i,
                strides[0] >= 0,
        ;
        assert(mul_ofs(0, strides[0] as int) == 0);
        assert(addr_ok(shape.skip(1), strides.skip(1), base, len));
        lemma_addr_ok_to_bound(shape.skip(1), strides.skip(1), base, len);
    }
}

/// Row-major strides reach exactly the offsets below `numel`.
pub proof fn lemma_max_ofs_cstrides(shape: Seq<usize>)
    requires
        forall|j: int| 0 <= j < shape.len() ==> 1 <= #[trigger] shape[j],
        numel(shape) <= usize::MAX,
    ensures
        max_ofs(shape, cstrides(shape)) == numel(shape) - 1,
    decreases shape.len(),
{
    if shape.len() > 0 {
        let sub = shape.skip(1);
        assert forall|j: int| 0 <= j < sub.len() implies 1 <= #[trigger] sub[j] by {
            assert(sub[j] == shape[j + 1]);
        }
        assert(numel(shape) == shape[0] as nat * numel(sub));
        assert(numel(sub) <= numel(shape)) by (nonlinear_arith)
            requires
                numel(shape) == shape[0] as nat * numel(sub),
                shape[0] >= 1,
        ;
        lemma_max_ofs_cstrides(sub);
        assert(cstrides(shape).skip(1) =~= cstrides(sub)) by {
            assert forall|j: int| 0 <= j < sub.len() implies cstrides(shape).skip(1)[j]
                == cstrides(sub)[j] by {
                lemma_skip_skip(shape, 1, j + 1);
            }
        }
        assert(cstrides(shape)[0] as nat == numel(sub));
        assert((shape[0] - 1) * numel(sub) + (numel(sub) - 1) == shape[0] * numel(sub) - 1)
            by (nonlinear_arith);
    }
}

/// Indexing into the kept prefix: a kept axis `i` lands at position
/// `kept_up_to(i).len()` of the reduced shape, carrying its extent.
pub proof fn lemma_kept_prefix(shape: Seq<usize>, axes: Seq<usize>, i: int, j: int)
    requires
        0 <= i <= j,
    ensures
        kept_up_to(shape, axes, j).take(kept_up_to(shape, axes, i).len() as int) == kept_up_to(
            shape,
            axes,
            i,
        ),
    decreases j - i,
{
    if i < j {
        lemma_kept_prefix(shape, axes, i, j - 1);
        lemma_kept_le(shape, axes, i, j - 1);
        assert(kept_up_to(shape, axes, j).take(kept_up_to(shape, axes, i).len() as int)
            =~= kept_up_to(shape, axes, i));
    } else {
        assert(kept_up_to(shape, axes, j).take(kept_up_to(shape, axes, i).len() as int)
            =~= kept_up_to(shape, axes, i));
    }
}

/// The farthest offset under expanded strides equals the farthest offset of
/// the reduced shape under the kept strides.
pub proof fn lemma_max_ofs_expanded_from(
    shape: Seq<usize>,
    axes: Seq<usize>,
    kstr: Seq<usize>,
    i: int,
)
    requires
        0 <= i <= shape.len(),
        kstr.len() == reduced(shape, axes).len(),
    ensures
        max_ofs(
            shape.skip(i),
            expanded(shape, axes, kstr).skip(i),
        ) == max_ofs(
            reduced(shape, axes).skip(kept_up_to(shape, axes, i).len() as int),
            kstr.skip(kept_up_to(shape, axes, i).len() as int),
        ),
    decreases shape.len() - i,
{
    let ex = expanded(shape, axes, kstr);
    let red = reduced(shape, axes);
    let k = kept_up_to(shape, axes, i).len() as int;
    lemma_kept_le(shape, axes, i, shape.len() as int);
    if i == shape.len() {
        assert(shape.skip(i).len() == 0);
        assert(red.skip(k).len() == 0);
    } else {
        lemma_max_ofs_expanded_from(shape, axes, kstr, i + 1);
        let k1 = kept_up_to(shape, axes, i + 1).len() as int;
        assert(shape.skip(i)[0] == shape[i]);
        assert(ex.skip(i)[0] == ex[i]);
        assert(shape.skip(i).skip(1) =~= shape.skip(i + 1));
        assert(ex.skip(i).skip(1) =~= ex.skip(i + 1));
        if ax_has(axes, i) {
            assert(k1 == k);
            assert(ex[i] == 0);
            assert((shape[i] - 1) * 0 == 0) by (nonlinear_arith);
        } else {
            assert(k1 == k + 1);
            assert(ex[i] == kstr[k]);
            lemma_kept_le(shape, axes, i + 1, shape.len() as int);
            lemma_kept_prefix(shape, axes, i + 1, shape.len() as int);
            assert(red[k] == shape[i]) by {
                assert(red.take(k1) == kept_up_to(shape, axes, i + 1));
                assert(kept_up_to(shape, axes, i + 1)[k] == shape[i]);
                assert(red.take(k1)[k] == red[k]);
            }
            assert(red.skip(k)[0] == red[k]);
            assert(kstr.skip(k)[0] == kstr[k]);
            assert(red.skip(k).skip(1) =~= red.skip(k1));
            assert(kstr.skip(k).skip(1) =~= kstr.skip(k1));
        }
    }
}

/// The farthest offset of an expanded view equals the farthest offset of the
/// kept axes alone.
pub proof fn lemma_max_ofs_expanded(shape: Seq<usize>, axes: Seq<usize>, kstr: Seq<usize>)
    requires
        kstr.len() == reduced(shape, axes).len(),
    ensures
        max_ofs(shape, expanded(shape, axes, kstr)) == max_ofs(reduced(shape, axes), kstr),
{
    lemma_max_ofs_expanded_from(shape, axes, kstr, 0);
    assert(shape.skip(0) =~= shape);
    assert(expanded(shape, axes, kstr).skip(0) =~= expanded(shape, axes, kstr));
    assert(kept_up_to(shape, axes, 0).len() == 0);
    assert(reduced(shape, axes).skip(0) =~= reduced(shape, axes));
    assert(kstr.skip(0) =~= kstr);
}

/// How many axes the kept prefix holds does not depend on the values of the
/// sequence the axes are removed from.
pub proof fn lemma_kept_len_eq(s1: Seq<usize>, s2: Seq<usize>, axes: Seq<usize>, i: int)
    ensures
        kept_up_to(s1, axes, i).len() == kept_up_to(s2, axes, i).len(),
    decreases i,
{
    if i > 0 {
        lemma_kept_len_eq(s1, s2, axes, i - 1);
    }
}

/// Dropping axes keeps every extent at least one.
pub proof fn lemma_reduced_extents(shape: Seq<usize>, axes: Seq<usize>, i: int)
    requires
        0 <= i <= shape.len(),
        forall|j: int| 0 <= j < shape.len() ==> 1 <= #[trigger] shape[j],
    ensures
        forall|k: int|
            0 <= k < kept_up_to(shape, axes, i).len() ==> 1 <= #[trigger] kept_up_to(
                shape,
                axes,
                i,
            )[k],
    decreases i,
{
    if i > 0 {
        lemma_reduced_extents(shape, axes, i - 1);
        let prev = kept_up_to(shape, axes, i - 1);
        let cur = kept_up_to(shape, axes, i);
        if !ax_has(axes, i - 1) {
            assert(cur == prev.push(shape[i - 1]));
            assert forall|k: int| 0 <= k < cur.len() implies 1 <= #[trigger] cur[k] by {
                if k < prev.len() {
                    assert(cur[k] == prev[k]);
                } else {
                    assert(cur[k] == shape[i - 1]);
                }
            }
        }
    }
}

/// Dropping axes can only lower the farthest offset, when every extent is at
/// least one.
pub proof fn lemma_max_ofs_reduced_le_from(
    shape: Seq<usize>,
    strv: Seq<usize>,
    axes: Seq<usize>,
    i: int,
)
    requires
        0 <= i <= shape.len(),
        strv.len() == shape.len(),
        forall|j: int| 0 <= j < shape.len() ==> 1 <= #[trigger] shape[j],
    ensures
        max_ofs(
            reduced(shape, axes).skip(kept_up_to(shape, axes, i).len() as int),
            reduced(strv, axes).skip(kept_up_to(shape, axes, i).len() as int),
        ) <= max_ofs(shape.skip(i), strv.skip(i)),
        max_ofs(shape.skip(i), strv.skip(i)) >= 0,
    decreases shape.len() - i,
{
    let red = reduced(shape, axes);
    let rstr = reduced(strv, axes);
    let k = kept_up_to(shape, axes, i).len() as int;
    lemma_kept_le(shape, axes, i, shape.len() as int);
    lemma_kept_len_eq(shape, strv, axes, shape.len() as int);
    if i == shape.len() {
        assert(shape.skip(i).len() == 0);
        assert(red.skip(k).len() == 0);
    } else {
        lemma_max_ofs_reduced_le_from(shape, strv, axes, i + 1);
        let k1 = kept_up_to(shape, axes, i + 1).len() as int;
        assert(shape.skip(i)[0] == shape[i]);
        assert(strv.skip(i)[0] == strv[i]);
        assert(shape.skip(i).skip(1) =~= shape.skip(i + 1));
        assert(strv.skip(i).skip(1) =~= strv.skip(i + 1));
        assert((shape[i] - 1) * strv[i] >= 0) by (nonlinear_arith)
            requires
                shape[i] >= 1,
                strv[i] >= 0,
        ;
        if ax_has(axes, i) {
            assert(k1 == k);
        } else {
            assert(k1 == k + 1);
            lemma_kept_le(shape, axes, i + 1, shape.len() as int);
            lemma_kept_prefix(shape, axes, i + 1, shape.len() as int);
            lemma_kept_prefix(strv, axes, i + 1, strv.len() as int);
            lemma_kept_len_eq(shape, strv, axes, i);
            lemma_kept_len_eq(shape, strv, axes, i + 1);
            assert(red[k] == shape[i]) by {
                assert(red.take(k1) == kept_up_to(shape, axes, i + 1));
                assert(kept_up_to(shape, axes, i + 1)[k] == shape[i]);
                assert(red.take(k1)[k] == red[k]);
            }
            assert(rstr[k] == strv[i]) by {
                assert(rstr.take(k1) == kept_up_to(strv, axes, i + 1));
                assert(kept_up_to(strv, axes, i + 1)[k] == strv[i]);
                assert(rstr.take(k1)[k] == rstr[k]);
            }
            assert(red.skip(k)[0] == red[k]);
            assert(rstr.skip(k)[0] == rstr[k]);
            assert(red.skip(k).skip(1) =~= red.skip(k1));
            assert(rstr.skip(k).skip(1) =~= rstr.skip(k1));
        }
    }
}

/// Dropping axes can only lower the farthest offset.
pub proof fn lemma_max_ofs_reduced_le(shape: Seq<usize>, strv: Seq<usize>, axes: Seq<usize>)
    requires
        strv.len() == shape.len(),
        forall|j: int| 0 <= j < shape.len() ==> 1 <= #[trigger] shape[j],
    ensures
        max_ofs(reduced(shape, axes), reduced(strv, axes)) <= max_ofs(shape, strv),
        max_ofs(shape, strv) >= 0,
{
    lemma_max_ofs_reduced_le_from(shape, strv, axes, 0);
    assert(shape.skip(0) =~= shape);
    assert(strv.skip(0) =~= strv);
    assert(kept_up_to(shape, axes, 0).len() == 0);
    assert(reduced(shape, axes).skip(0) =~= reduced(shape, axes));
    assert(reduced(strv, axes).skip(0) =~= reduced(strv, axes));
}

/// The sequence reindexed through `perm`: entry `i` is `s[perm[i]]`.
pub open spec fn permuted<A>(s: Seq<A>, perm: Seq<usize>) -> Seq<A> {
    Seq::new(perm.len(), |i: int| s[perm[i] as int])
}

/// Whether `perm` mentions the value `v`.
pub open spec fn perm_hits(perm: Seq<usize>, v: int) -> bool {
    exists|i: int| 0 <= i < perm.len() && perm[i] == v
}

/// A bijection on the axis positions `0 .. n`.
pub open spec fn is_perm(perm: Seq<usize>, n: nat) -> bool {
    &&& perm.len() == n
    &&& forall|i: int| 0 <= i < n ==> (#[trigger] perm[i]) < n
    &&& forall|i: int, j: int| 0 <= i < j < n ==> perm[i] != perm[j]
    &&& forall|v: int| 0 <= v < n ==> #[trigger] perm_hits(perm, v)
}

/// The farthest-offset terms of the axes `perm` lists, in that order.
pub open spec fn sel_ofs(perm: Seq<usize>, shape: Seq<usize>, strides: Seq<usize>) -> int
    decreases perm.len(),
{
    if perm.len() == 0 {
        0
    } else {
        (shape[perm[0] as int] - 1) * strides[perm[0] as int] + sel_ofs(
            perm.skip(1),
            shape,
            strides,
        )
    }
}

/// Reindexing the shape and strides together reorders the farthest-offset
/// terms into the listed order.
proof fn lemma_max_ofs_permuted_terms(perm: Seq<usize>, shape: Seq<usize>, strides: Seq<usize>)
    requires
        strides.len() == shape.len(),
        forall|i: int| 0 <= i < perm.len() ==> (#[trigger] perm[i]) < shape.len(),
    ensures
        max_ofs(permuted(shape, perm), permuted(strides, perm)) == sel_ofs(
            perm,
            shape,
            strides,
        ),
    decreases perm.len(),
{
    if perm.len() > 0 {
        assert forall|i: int| 0 <= i < perm.skip(1).len() implies (#[trigger] perm.skip(1)[i])
            < shape.len() by {
            assert(perm.skip(1)[i] == perm[i + 1]);
        }
        lemma_max_ofs_permuted_terms(perm.skip(1), shape, strides);
        assert(permuted(shape, perm).skip(1) =~= permuted(shape, perm.skip(1)));
        assert(permuted(strides, perm).skip(1) =~= permuted(strides, perm.skip(1)));
    }
}

/// A listed term can be pulled out of the sum wherever it stands.
proof fn lemma_sel_ofs_remove(perm: Seq<usize>, shape: Seq<usize>, strides: Seq<usize>, j: int)
    requires
        0 <= j < perm.len(),
    ensures
        sel_ofs(perm, shape, strides) == (shape[perm[j] as int] - 1) * strides[perm[j] as int]
            + sel_ofs(perm.remove(j), shape, strides),
    decreases j,
{
    if j == 0 {
        assert(perm.remove(0) =~= perm.skip(1));
    } else {
        lemma_sel_ofs_remove(perm.skip(1), shape, strides, j - 1);
        assert(perm.skip(1)[j - 1] == perm[j]);
        assert(perm.remove(j)[0] == perm[0]);
        assert(perm.remove(j).skip(1) =~= perm.skip(1).remove(j - 1));
    }
}

/// Axis numbers shifted down by one select the same terms from the tails.
proof fn lemma_sel_ofs_shift(p: Seq<usize>, shape: Seq<usize>, strides: Seq<usize>)
    requires
        shape.len() == strides.len(),
        shape.len() >= 1,
        forall|i: int| 0 <= i < p.len() ==> 1 <= (#[trigger] p[i]) && p[i] < shape.len(),
    ensures
        sel_ofs(p, shape, strides) == sel_ofs(
            Seq::new(p.len(), |i: int| (p[i] - 1) as usize),
            shape.skip(1),
            strides.skip(1),
        ),
    decreases p.len(),
{
    let p1 = Seq::new(p.len(), |i: int| (p[i] - 1) as usize);
    if p.len() > 0 {
        assert forall|i: int| 0 <= i < p.skip(1).len() implies 1 <= (#[trigger] p.skip(1)[i])
            && p.skip(1)[i] < shape.len() by {
            assert(p.skip(1)[i] == p[i + 1]);
        }
        lemma_sel_ofs_shift(p.skip(1), shape, strides);
        assert(p1.skip(1) =~= Seq::new(
            p.skip(1).len(),
            |i: int| (p.skip(1)[i] - 1) as usize,
        ));
        assert(shape.skip(1)[p1[0] as int] == shape[p[0] as int]);
        assert(strides.skip(1)[p1[0] as int] == strides[p[0] as int]);
    }
}

/// Summing the terms of every axis in any order gives the farthest offset.
proof fn lemma_sel_ofs_all(perm: Seq<usize>, shape: Seq<usize>, strides: Seq<usize>)
    requires
        is_perm(perm, shape.len() as nat),
        strides.len() == shape.len(),
    ensures
        sel_ofs(perm, shape, strides) == max_ofs(shape, strides),
    decreases shape.len(),
{
    if shape.len() > 0 {
        let n = shape.len() as int;
        assert(perm_hits(perm, 0));
        let j0 = choose|i: int| 0 <= i < perm.len() && perm[i] == 0;
        lemma_sel_ofs_remove(perm, shape, strides, j0);
        let rest = perm.remove(j0);
        assert forall|i: int| 0 <= i < rest.len() implies 1 <= (#[trigger] rest[i]) && rest[i]
            < shape.len() by {
            if i < j0 {
                assert(rest[i] == perm[i]);
                if perm[i] == 0 {
                    assert(perm[i] == perm[j0]);
                }
            } else {
                assert(rest[i] == perm[i + 1]);
                if perm[i + 1] == 0 {
                    assert(perm[i + 1] == perm[j0]);
                }
            }
        }
        lemma_sel_ofs_shift(rest, shape, strides);
        let rest1 = Seq::new(rest.len(), |i: int| (rest[i] - 1) as usize);
        assert(is_perm(rest1, shape.skip(1).len() as nat)) by {
            assert(rest1.len() == n - 1);
            assert forall|i: int| 0 <= i < n - 1 implies (#[trigger] rest1[i]) < n - 1 by {}
            assert forall|a: int, b: int| 0 <= a < b < n - 1 implies rest1[a] != rest1[b] by {
                let pa: int = if a < j0 {
                    a
                } else {
                    a + 1
                };
                let pb: int = if b < j0 {
                    b
                } else {
                    b + 1
                };
                assert(rest[a] == perm[pa]);
                assert(rest[b] == perm[pb]);
            }
            assert forall|v: int| 0 <= v < n - 1 implies #[trigger] perm_hits(rest1, v) by {
                assert(perm_hits(perm, v + 1));
                let i = choose|i: int| 0 <= i < perm.len() && perm[i] == v + 1;
                assert(i != j0);
                let k: int = if i < j0 {
                    i
                } else {
                    i - 1
                };
                assert(rest[k] == perm[i]);
                assert(rest1[k] == v);
            }
        }
        lemma_sel_ofs_all(rest1, shape.skip(1), strides.skip(1));
    }
}

/// The farthest offset does not depend on the order of the axes: a permuted
/// view reaches exactly as far as the view it permutes.
pub proof fn lemma_max_ofs_perm_invariant(
    perm: Seq<usize>,
    shape: Seq<usize>,
    strides: Seq<usize>,
)
    requires
        is_perm(perm, shape.len() as nat),
        strides.len() == shape.len(),
    ensures
        max_ofs(permuted(shape, perm), permuted(strides, perm)) == max_ofs(shape, strides),
{
    lemma_max_ofs_permuted_terms(perm, shape, strides);
    lemma_sel_ofs_all(perm, shape, strides);
}

/// A contiguous block of `numel(shape)` elements starting at `base` is
/// addressable with the row-major strides.
pub proof fn lemma_addr_ok_contiguous(
    shape: Seq<usize>,
    strides: Seq<usize>,
    base: int,
    len: int,
)
    requires
        strides == cstrides(shape),
        0 <= base,
        base + numel(shape) <= len,
        numel(shape) >= 1,
        numel(shape) <= usize::MAX,
    ensures
        addr_ok(shape, strides, base, len),
    decreases shape.len(),
{
    if shape.len() == 0 {
        assert(0 <= base < len);
    } else {
        let sub = shape.skip(1);
        let m = numel(sub);
        assert(numel(shape) == shape[0] as nat * m);
        assert(m >= 1) by {
            lemma_numel_zero(shape);
            lemma_numel_zero(sub);
            if m == 0 {
                let j = choose|i: int| 0 <= i < sub.len() && sub[i] == 0;
                assert(shape[j + 1] == 0);
            }
        }
        assert(m <= numel(shape)) by (nonlinear_arith)
            requires
                numel(shape) == shape[0] as nat * m,
                numel(shape) >= 1,
        ;
        assert forall|i: int| 0 <= i < shape[0] implies addr_ok(
            shape.skip(1),
            strides.skip(1),
            base + #[trigger] mul_ofs(i, strides[0] as int),
            len,
        ) by {
            assert(strides[0] as nat == m);
            assert(mul_ofs(i, strides[0] as int) == i * m);
            assert(strides.skip(1) =~= cstrides(sub)) by {
                assert forall|j: int| 0 <= j < sub.len() implies strides.skip(1)[j]
                    == cstrides(sub)[j] by {
                    lemma_skip_skip(shape, 1, j + 1);
                }
                assert(strides.skip(1).len() == cstrides(sub).len());
            }
            assert((i + 1) * m <= shape[0] as nat * m) by (nonlinear_arith)
                requires
                    0 <= i < shape[0],
                    m >= 1,
            ;
            assert(i * m + m == (i + 1) * m) by (nonlinear_arith);
            lemma_addr_ok_contiguous(sub, strides.skip(1), base + i * m, len);
        }
    }
}

} // verus!
