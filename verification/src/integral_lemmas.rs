//! What the quadrature rules compute where nothing is clamped.
//!
//! The running sums of [`crate::integrals`] clamp to the range of raw values.
//! Here the same sums are written as plain integers, and the rules are shown
//! to agree with them while every intermediate value stays in range. On that
//! ground stand the statements on a second pass over one task and on the
//! sign of the result under swapped bounds.
use crate::fixed::{fits, lemma_trunc_div_negated, trunc_div, Fixed, SCALE};
use crate::integrals::{
    riemann_sum, samples_left_edges, samples_panel, samples_panels, simpson_sum, simpson_total,
    spec_interval_width, spec_left_edge, spec_panel_points, Panel,
};
use vstd::prelude::*;

verus! {

/// The area `y * width` of one rectangle before clamping, in raw units.
pub open spec fn exact_rectangle(y: Fixed, width: Fixed) -> int {
    trunc_div(y.raw * width.raw, SCALE as int)
}

/// The sum of the rectangles over `ys` before clamping, in raw units.
pub open spec fn exact_riemann_total(ys: Seq<Fixed>, width: Fixed) -> int
    decreases ys.len(),
{
    if ys.len() == 0 {
        0
    } else {
        exact_riemann_total(ys.drop_last(), width) + exact_rectangle(ys.last(), width)
    }
}

/// Whether adding the rectangles over `ys` to `acc` never clamps: every
/// rectangle and every running sum is in the range of raw values.
pub open spec fn riemann_never_clamps(acc: Fixed, ys: Seq<Fixed>, width: Fixed) -> bool
    decreases ys.len(),
{
    ys.len() > 0 ==> {
        &&& riemann_never_clamps(acc, ys.drop_last(), width)
        &&& fits(exact_rectangle(ys.last(), width))
        &&& fits(acc.raw + exact_riemann_total(ys, width))
    }
}

/// Where nothing clamps, the running sum grows by exactly the sum of the
/// rectangles, whatever it held before.
pub proof fn lemma_riemann_sum_adds_total(acc: Fixed, ys: Seq<Fixed>, width: Fixed)
    requires
        riemann_never_clamps(acc, ys, width),
    ensures
        riemann_sum(acc, ys, width).raw == acc.raw + exact_riemann_total(ys, width),
    decreases ys.len(),
{
    if ys.len() > 0 {
        lemma_riemann_sum_adds_total(acc, ys.drop_last(), width);
    }
}

/// The running result is never reset. For a function with one value at each
/// point, what a second pass of the Riemann rule over one task returns is
/// twice what the first pass on the fresh task returned, where neither pass
/// clamps.
pub proof fn lemma_riemann_second_pass_doubles<F: Fn(Fixed) -> Fixed>(
    f: F,
    lower: Fixed,
    width: Fixed,
    first: Seq<Fixed>,
    second: Seq<Fixed>,
)
    requires
        single_valued(f),
        first.len() == second.len(),
        samples_left_edges(f, lower, width, first),
        samples_left_edges(f, lower, width, second),
        riemann_never_clamps(Fixed { raw: 0 }, first, width),
        riemann_never_clamps(riemann_sum(Fixed { raw: 0 }, first, width), second, width),
    ensures
        riemann_sum(riemann_sum(Fixed { raw: 0 }, first, width), second, width).raw == 2
            * riemann_sum(Fixed { raw: 0 }, first, width).raw,
{
    assert forall|i: int| 0 <= i < first.len() implies #[trigger] first[i] == second[i] by {
        assert(f.ensures((spec_left_edge(lower, width, i as u64),), first[i]));
        assert(f.ensures((spec_left_edge(lower, width, i as u64),), second[i]));
    }
    assert(first =~= second);
    lemma_riemann_sum_adds_total(Fixed { raw: 0 }, first, width);
    lemma_riemann_sum_adds_total(riemann_sum(Fixed { raw: 0 }, first, width), second, width);
}

/// Swapping the bounds negates the width, where neither difference of the
/// bounds clamps.
pub proof fn lemma_swapped_bounds_negate_width(lower: Fixed, upper: Fixed, n: u64)
    requires
        n > 0,
        fits(upper.raw - lower.raw),
        fits(lower.raw - upper.raw),
    ensures
        spec_interval_width(upper, lower, n).raw == -spec_interval_width(lower, upper, n).raw,
{
    lemma_trunc_div_negated(upper.raw - lower.raw, n as int);
    lemma_quotient_fits(upper.raw - lower.raw, n as int);
    lemma_quotient_fits(lower.raw - upper.raw, n as int);
}

/// A raw value divided by a whole number greater than zero is a raw value.
proof fn lemma_quotient_fits(v: int, k: int)
    requires
        fits(v),
        k > 0,
    ensures
        fits(trunc_div(v, k)),
{
    let m = if v < 0 {
        -v
    } else {
        v
    };
    assert(0 <= m / k <= m) by (nonlinear_arith)
        requires
            m >= 0,
            k > 0,
    ;
}

/// With the width negated, every rectangle is negated, and so is their sum.
pub proof fn lemma_negated_width_negates_total(ys: Seq<Fixed>, width: Fixed, negated: Fixed)
    requires
        negated.raw == -width.raw,
    ensures
        exact_riemann_total(ys, negated) == -exact_riemann_total(ys, width),
    decreases ys.len(),
{
    if ys.len() > 0 {
        lemma_negated_width_negates_total(ys.drop_last(), width, negated);
        let y = ys.last().raw as int;
        let w = width.raw as int;
        assert(y * (-w) == -(y * w)) by (nonlinear_arith);
        lemma_trunc_div_negated(y * w, SCALE as int);
    }
}

/// The sign of the Riemann rule follows the order of the bounds: on a task
/// that started at zero, the same values with the width negated give the
/// negated result, where nothing clamps in either pass.
pub proof fn lemma_riemann_negated_width(ys: Seq<Fixed>, width: Fixed, negated: Fixed)
    requires
        negated.raw == -width.raw,
        riemann_never_clamps(Fixed { raw: 0 }, ys, width),
        riemann_never_clamps(Fixed { raw: 0 }, ys, negated),
    ensures
        riemann_sum(Fixed { raw: 0 }, ys, negated).raw == -riemann_sum(
            Fixed { raw: 0 },
            ys,
            width,
        ).raw,
{
    lemma_riemann_sum_adds_total(Fixed { raw: 0 }, ys, width);
    lemma_riemann_sum_adds_total(Fixed { raw: 0 }, ys, negated);
    lemma_negated_width_negates_total(ys, width, negated);
}

/// The sign of Simpson's rule follows the order of the bounds: on a task
/// that started at zero, the same panels with the width negated give the
/// negated result, where the product of the total and the width clamps for
/// neither width.
pub proof fn lemma_simpson_negated_width(panels: Seq<Panel>, width: Fixed, negated: Fixed)
    requires
        negated.raw == -width.raw,
        fits(trunc_div(simpson_total(Fixed { raw: 0 }, panels).raw * width.raw, SCALE as int)),
        fits(-trunc_div(simpson_total(Fixed { raw: 0 }, panels).raw * width.raw, SCALE as int)),
    ensures
        simpson_sum(Fixed { raw: 0 }, panels, negated).raw == -simpson_sum(
            Fixed { raw: 0 },
            panels,
            width,
        ).raw,
{
    let total = simpson_total(Fixed { raw: 0 }, panels).raw as int;
    let w = width.raw as int;
    let product = trunc_div(total * w, SCALE as int);
    assert(total * (-w) == -(total * w)) by (nonlinear_arith);
    lemma_trunc_div_negated(total * w, SCALE as int);
    lemma_trunc_div_negated(product, 6);
    lemma_quotient_fits(product, 6);
    lemma_quotient_fits(-product, 6);
}

/// The running result is never reset. For a function with one value at each
/// point, what a second pass of Simpson's rule over one task returns is
/// twice what the first pass on the fresh task returned, where twice that
/// is in range.
pub proof fn lemma_simpson_second_pass_doubles<F: Fn(Fixed) -> Fixed>(
    f: F,
    lower: Fixed,
    width: Fixed,
    first: Seq<Panel>,
    second: Seq<Panel>,
)
    requires
        single_valued(f),
        first.len() == second.len(),
        samples_panels(f, lower, width, first),
        samples_panels(f, lower, width, second),
        fits(2 * simpson_sum(Fixed { raw: 0 }, first, width).raw),
    ensures
        simpson_sum(simpson_sum(Fixed { raw: 0 }, first, width), second, width).raw == 2
            * simpson_sum(Fixed { raw: 0 }, first, width).raw,
{
    assert forall|i: int| 0 <= i < first.len() implies #[trigger] first[i] == second[i] by {
        let left = spec_left_edge(lower, width, i as u64);
        assert(samples_panel(f, left, width, first[i]));
        assert(samples_panel(f, left, width, second[i]));
    }
    assert(first =~= second);
}

/// The weighted values `left + 4 * mid + right` of one panel before
/// clamping, in raw units.
pub open spec fn exact_panel(values: Panel) -> int {
    values.left.raw + 4 * values.mid.raw + values.right.raw
}

/// The sum of the weighted values of the panels before clamping, in raw
/// units.
pub open spec fn exact_simpson_total(panels: Seq<Panel>) -> int
    decreases panels.len(),
{
    if panels.len() == 0 {
        0
    } else {
        exact_simpson_total(panels.drop_last()) + exact_panel(panels.last())
    }
}

/// Whether the weighted values of one panel are formed without clamping.
pub open spec fn panel_fits(values: Panel) -> bool {
    &&& fits(4 * values.mid.raw)
    &&& fits(values.left.raw + 4 * values.mid.raw)
    &&& fits(exact_panel(values))
}

/// Whether adding the panels to `acc` never clamps: the weighted values of
/// every panel and every running total are in the range of raw values.
pub open spec fn simpson_never_clamps(acc: Fixed, panels: Seq<Panel>) -> bool
    decreases panels.len(),
{
    panels.len() > 0 ==> {
        &&& simpson_never_clamps(acc, panels.drop_last())
        &&& panel_fits(panels.last())
        &&& fits(acc.raw + exact_simpson_total(panels))
    }
}

/// Where nothing clamps, the running total grows by exactly the sum of the
/// weighted values, whatever it held before.
pub proof fn lemma_simpson_total_adds(acc: Fixed, panels: Seq<Panel>)
    requires
        simpson_never_clamps(acc, panels),
    ensures
        simpson_total(acc, panels).raw == acc.raw + exact_simpson_total(panels),
    decreases panels.len(),
{
    if panels.len() > 0 {
        lemma_simpson_total_adds(acc, panels.drop_last());
    }
}

/// The panel seen from the other side: the two edges change places.
pub open spec fn mirrored(values: Panel) -> Panel {
    Panel { left: values.right, mid: values.mid, right: values.left }
}

/// The panels as a walk from the upper bound down meets them: in the
/// opposite order, each one mirrored.
pub open spec fn backward_panels(panels: Seq<Panel>) -> Seq<Panel> {
    Seq::new(panels.len(), |i: int| mirrored(panels[panels.len() - 1 - i]))
}

/// The sum of the weighted values can be taken from the front as well.
proof fn lemma_simpson_total_from_front(panels: Seq<Panel>)
    requires
        panels.len() > 0,
    ensures
        exact_simpson_total(panels) == exact_panel(panels.first()) + exact_simpson_total(
            panels.drop_first(),
        ),
    decreases panels.len(),
{
    if panels.len() == 1 {
        assert(exact_simpson_total(panels.drop_last()) == 0);
        assert(exact_simpson_total(panels.drop_first()) == 0);
    } else {
        lemma_simpson_total_from_front(panels.drop_last());
        assert(panels.drop_last().drop_first() =~= panels.drop_first().drop_last());
    }
}

/// The sum of the weighted values does not depend on the direction of the
/// walk.
pub proof fn lemma_backward_panels_total(panels: Seq<Panel>)
    ensures
        exact_simpson_total(backward_panels(panels)) == exact_simpson_total(panels),
    decreases panels.len(),
{
    if panels.len() > 0 {
        let backward = backward_panels(panels);
        assert(backward.drop_last() =~= backward_panels(panels.drop_first()));
        lemma_backward_panels_total(panels.drop_first());
        lemma_simpson_total_from_front(panels);
    }
}

/// Whether the `n` sub-intervals tile the way between the bounds exactly:
/// `n` widths make up the whole difference, which is in range in either
/// direction.
pub open spec fn grid_is_exact(lower: Fixed, upper: Fixed, n: u64) -> bool {
    &&& n > 0
    &&& fits(upper.raw - lower.raw)
    &&& fits(lower.raw - upper.raw)
    &&& spec_interval_width(lower, upper, n).raw * n == upper.raw - lower.raw
}

/// Whether `f` can return one value only at each point.
pub open spec fn single_valued<F: Fn(Fixed) -> Fixed>(f: F) -> bool {
    forall|x: Fixed, y: Fixed, z: Fixed|
        #![trigger f.ensures((x,), y), f.ensures((x,), z)]
        f.ensures((x,), y) && f.ensures((x,), z) ==> y == z
}

/// On an exact grid no edge is clamped: edge `k` lies `k` widths from the
/// lower bound.
pub proof fn lemma_left_edge_on_exact_grid(lower: Fixed, upper: Fixed, n: u64, k: u64)
    requires
        grid_is_exact(lower, upper, n),
        k <= n,
    ensures
        spec_left_edge(lower, spec_interval_width(lower, upper, n), k).raw == lower.raw + k
            * spec_interval_width(lower, upper, n).raw,
{
    let w = spec_interval_width(lower, upper, n).raw as int;
    assert((w >= 0 ==> 0 <= w * k <= w * n) && (w <= 0 ==> w * n <= w * k <= 0))
        by (nonlinear_arith)
        requires
            0 <= k <= n,
    ;
    assert(w * k == k * w) by (nonlinear_arith);
}

/// On an exact grid a walk from the upper bound meets the same edges: edge
/// `k` counted from the upper bound is edge `n - k` counted from the lower.
pub proof fn lemma_left_edge_from_upper(lower: Fixed, upper: Fixed, n: u64, k: u64)
    requires
        grid_is_exact(lower, upper, n),
        k <= n,
    ensures
        grid_is_exact(upper, lower, n),
        spec_left_edge(upper, spec_interval_width(upper, lower, n), k) == spec_left_edge(
            lower,
            spec_interval_width(lower, upper, n),
            (n - k) as u64,
        ),
{
    let w = spec_interval_width(lower, upper, n).raw as int;
    lemma_swapped_bounds_negate_width(lower, upper, n);
    assert((-w) * n == -(w * n)) by (nonlinear_arith);
    lemma_left_edge_on_exact_grid(upper, lower, n, k);
    lemma_left_edge_on_exact_grid(lower, upper, n, (n - k) as u64);
    assert(upper.raw + k * (-w) == lower.raw + (n - k) * w) by (nonlinear_arith)
        requires
            w * n == upper.raw - lower.raw,
    ;
}

/// On an exact grid whose width can be halved exactly, the panel a walk from
/// the upper bound meets at step `n - 1 - j` has the abscissae of panel `j`,
/// mirrored.
pub proof fn lemma_panel_points_from_upper(lower: Fixed, upper: Fixed, n: u64, j: u64)
    requires
        grid_is_exact(lower, upper, n),
        spec_interval_width(lower, upper, n).raw % 2 == 0,
        j < n,
    ensures
        spec_panel_points(
            spec_left_edge(upper, spec_interval_width(upper, lower, n), (n - 1 - j) as u64),
            spec_interval_width(upper, lower, n),
        ) == mirrored(
            spec_panel_points(
                spec_left_edge(lower, spec_interval_width(lower, upper, n), j),
                spec_interval_width(lower, upper, n),
            ),
        ),
{
    let w = spec_interval_width(lower, upper, n).raw as int;
    lemma_swapped_bounds_negate_width(lower, upper, n);
    lemma_left_edge_from_upper(lower, upper, n, (n - 1 - j) as u64);
    lemma_left_edge_on_exact_grid(lower, upper, n, j);
    lemma_left_edge_on_exact_grid(lower, upper, n, (j + 1) as u64);
    let a = lower.raw + j * w;
    let b = lower.raw + (j + 1) * w;
    assert(b == a + w) by (nonlinear_arith)
        requires
            a == lower.raw + j * w,
            b == lower.raw + (j + 1) * w,
    ;
    assert((w >= 0 ==> lower.raw <= a <= b <= upper.raw) && (w <= 0 ==> upper.raw <= b <= a
        <= lower.raw)) by (nonlinear_arith)
        requires
            a == lower.raw + j * w,
            b == a + w,
            0 <= j < n,
            w * n == upper.raw - lower.raw,
    ;
    let half = trunc_div(w, 2);
    lemma_trunc_div_negated(w, 2);
    assert(2 * half == w);
}

/// Simpson's rule changes sign when the bounds change places. For a function
/// with one value at each point, on an exact grid whose width can be halved
/// exactly, whatever a fresh task returns for the bounds swapped is the
/// negative of what a fresh task returns for them in order, where neither
/// walk clamps.
pub proof fn lemma_simpson_swapped_bounds<F: Fn(Fixed) -> Fixed>(
    f: F,
    lower: Fixed,
    upper: Fixed,
    n: u64,
    forward: Seq<Panel>,
    backward: Seq<Panel>,
)
    requires
        grid_is_exact(lower, upper, n),
        spec_interval_width(lower, upper, n).raw % 2 == 0,
        single_valued(f),
        forward.len() == n,
        samples_panels(f, lower, spec_interval_width(lower, upper, n), forward),
        backward.len() == n,
        samples_panels(f, upper, spec_interval_width(upper, lower, n), backward),
        simpson_never_clamps(Fixed { raw: 0 }, forward),
        simpson_never_clamps(Fixed { raw: 0 }, backward),
        fits(
            trunc_div(
                simpson_total(Fixed { raw: 0 }, forward).raw * spec_interval_width(
                    lower,
                    upper,
                    n,
                ).raw,
                SCALE as int,
            ),
        ),
        fits(
            -trunc_div(
                simpson_total(Fixed { raw: 0 }, forward).raw * spec_interval_width(
                    lower,
                    upper,
                    n,
                ).raw,
                SCALE as int,
            ),
        ),
    ensures
        simpson_sum(Fixed { raw: 0 }, backward, spec_interval_width(upper, lower, n)).raw
            == -simpson_sum(Fixed { raw: 0 }, forward, spec_interval_width(lower, upper, n)).raw,
{
    let zero = Fixed { raw: 0 };
    let width = spec_interval_width(lower, upper, n);
    let negated = spec_interval_width(upper, lower, n);
    assert forall|i: int| 0 <= i < n implies backward[i] == mirrored(
        #[trigger] forward[n - 1 - i],
    ) by {
        let j = (n - 1 - i) as u64;
        lemma_panel_points_from_upper(lower, upper, n, j);
        assert(spec_left_edge(upper, negated, (n - 1 - j) as u64) == spec_left_edge(
            upper,
            negated,
            i as u64,
        ));
    }
    assert(backward =~= backward_panels(forward));
    lemma_backward_panels_total(forward);
    lemma_simpson_total_adds(zero, forward);
    lemma_simpson_total_adds(zero, backward);
    lemma_swapped_bounds_negate_width(lower, upper, n);
    lemma_simpson_negated_width(forward, width, negated);
}

/// The values in the opposite order.
pub open spec fn backward_values(ys: Seq<Fixed>) -> Seq<Fixed> {
    Seq::new(ys.len(), |i: int| ys[ys.len() - 1 - i])
}

/// The sum of the rectangles can be taken from the front as well.
proof fn lemma_riemann_total_from_front(ys: Seq<Fixed>, width: Fixed)
    requires
        ys.len() > 0,
    ensures
        exact_riemann_total(ys, width) == exact_rectangle(ys.first(), width) + exact_riemann_total(
            ys.drop_first(),
            width,
        ),
    decreases ys.len(),
{
    if ys.len() == 1 {
        assert(exact_riemann_total(ys.drop_last(), width) == 0);
        assert(exact_riemann_total(ys.drop_first(), width) == 0);
    } else {
        lemma_riemann_total_from_front(ys.drop_last(), width);
        assert(ys.drop_last().drop_first() =~= ys.drop_first().drop_last());
    }
}

/// The sum of the rectangles does not depend on the order of the values.
pub proof fn lemma_backward_values_total(ys: Seq<Fixed>, width: Fixed)
    ensures
        exact_riemann_total(backward_values(ys), width) == exact_riemann_total(ys, width),
    decreases ys.len(),
{
    if ys.len() > 0 {
        let backward = backward_values(ys);
        assert(backward.drop_last() =~= backward_values(ys.drop_first()));
        lemma_backward_values_total(ys.drop_first(), width);
        lemma_riemann_total_from_front(ys, width);
    }
}

/// The Riemann rule under swapped bounds. A walk from the upper bound takes
/// the right edge of each sub-interval where the walk from the lower bound
/// takes the left one. So, for a function with one value at each point and
/// on an exact grid, what two fresh tasks return for the bounds in order and
/// swapped cancels but for the rectangles at the two bounds, where neither
/// walk clamps.
pub proof fn lemma_riemann_swapped_bounds<F: Fn(Fixed) -> Fixed>(
    f: F,
    lower: Fixed,
    upper: Fixed,
    n: u64,
    forward: Seq<Fixed>,
    backward: Seq<Fixed>,
)
    requires
        grid_is_exact(lower, upper, n),
        single_valued(f),
        forward.len() == n,
        samples_left_edges(f, lower, spec_interval_width(lower, upper, n), forward),
        backward.len() == n,
        samples_left_edges(f, upper, spec_interval_width(upper, lower, n), backward),
        riemann_never_clamps(Fixed { raw: 0 }, forward, spec_interval_width(lower, upper, n)),
        riemann_never_clamps(Fixed { raw: 0 }, backward, spec_interval_width(upper, lower, n)),
    ensures
        riemann_sum(Fixed { raw: 0 }, backward, spec_interval_width(upper, lower, n)).raw
            + riemann_sum(Fixed { raw: 0 }, forward, spec_interval_width(lower, upper, n)).raw
            == exact_rectangle(forward[0], spec_interval_width(lower, upper, n)) - exact_rectangle(
            backward[0],
            spec_interval_width(lower, upper, n),
        ),
{
    let zero = Fixed { raw: 0 };
    let width = spec_interval_width(lower, upper, n);
    let negated = spec_interval_width(upper, lower, n);
    let inner = forward.drop_first();
    assert forall|i: int| 1 <= i < n implies #[trigger] backward[i] == forward[n - i] by {
        lemma_left_edge_from_upper(lower, upper, n, i as u64);
        let seen = backward[i];
        let met = forward[n - i];
        assert(f.ensures((spec_left_edge(upper, negated, i as u64),), seen));
        assert(f.ensures((spec_left_edge(lower, width, (n - i) as u64),), met));
    }
    assert(backward.drop_first() =~= backward_values(inner));
    lemma_swapped_bounds_negate_width(lower, upper, n);
    lemma_riemann_sum_adds_total(zero, forward, width);
    lemma_riemann_sum_adds_total(zero, backward, negated);
    lemma_negated_width_negates_total(backward, width, negated);
    lemma_riemann_total_from_front(forward, width);
    lemma_riemann_total_from_front(backward, width);
    lemma_backward_values_total(inner, width);
}

} // verus!
