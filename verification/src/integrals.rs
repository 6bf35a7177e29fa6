//! Fixed-step quadrature of a function over an interval.
//!
//! An [`Integral`] holds the function, the two bounds, a count of
//! sub-intervals greater than zero, and a running result. Both rules walk the
//! sub-intervals from the first to the last and add what they find for the
//! interval to the running result, which a new task starts at zero and no
//! method resets: a second call on one task adds a second integral to the
//! first.
use crate::fixed::Fixed;
use vstd::prelude::*;

verus! {

/// The count of sub-intervals used when a caller asks for none.
pub const DEFAULT_NUM_INTERVALS: u64 = 1_000_000;

/// The count a task works with: the requested one when it is greater than
/// zero, the default otherwise.
pub open spec fn effective_num_intervals(requested: u64) -> u64 {
    if requested > 0 {
        requested
    } else {
        DEFAULT_NUM_INTERVALS
    }
}

/// The signed width of one sub-interval: `(upper - lower) / n`.
pub open spec fn spec_interval_width(lower: Fixed, upper: Fixed, n: u64) -> Fixed {
    upper.spec_sub(lower).spec_div_int(n)
}

/// The left edge of sub-interval `i`: `lower + i * width`.
pub open spec fn spec_left_edge(lower: Fixed, width: Fixed, i: u64) -> Fixed {
    lower.spec_add(width.spec_mul_int(i))
}

/// Three numbers that belong to the left edge, the midpoint and the right
/// edge of one sub-interval: the abscissae, or the values of a function there.
#[derive(Clone, Copy, Debug, PartialEq, Eq, Structural)]
pub struct Panel {
    pub left: Fixed,
    pub mid: Fixed,
    pub right: Fixed,
}

/// The abscissae of the sub-interval that starts at `left`: `left`,
/// `left + width / 2` and `left + width`.
pub open spec fn spec_panel_points(left: Fixed, width: Fixed) -> Panel {
    Panel {
        left,
        mid: left.spec_add(width.spec_div_int(2)),
        right: left.spec_add(width),
    }
}

/// The area of one rectangle added to a running sum: `acc + y * width`.
pub open spec fn spec_riemann_accumulate(acc: Fixed, y: Fixed, width: Fixed) -> Fixed {
    acc.spec_add(y.spec_mul(width))
}

/// The weighted values of one panel added to a running total:
/// `acc + ((left + 4 * mid) + right)`.
pub open spec fn spec_simpson_accumulate(acc: Fixed, values: Panel) -> Fixed {
    acc.spec_add(values.left.spec_add(values.mid.spec_mul_int(4)).spec_add(values.right))
}

/// The running sum after the rectangles over `ys`, taken from the first to
/// the last, were added to `acc`.
pub open spec fn riemann_sum(acc: Fixed, ys: Seq<Fixed>, width: Fixed) -> Fixed
    decreases ys.len(),
{
    if ys.len() == 0 {
        acc
    } else {
        spec_riemann_accumulate(riemann_sum(acc, ys.drop_last(), width), ys.last(), width)
    }
}

/// The running total after the panels, taken from the first to the last,
/// were added to `acc`.
pub open spec fn simpson_total(acc: Fixed, panels: Seq<Panel>) -> Fixed
    decreases panels.len(),
{
    if panels.len() == 0 {
        acc
    } else {
        spec_simpson_accumulate(simpson_total(acc, panels.drop_last()), panels.last())
    }
}

/// A total of weighted values scaled once by a sixth of the width:
/// `total * width / 6`, the division last.
pub open spec fn spec_simpson_scale(total: Fixed, width: Fixed) -> Fixed {
    total.spec_mul(width).spec_div_int(6)
}

/// The running result after one pass of Simpson's rule over the panels: the
/// total of their weighted values, taken from zero and scaled once, added to
/// `acc`.
pub open spec fn simpson_sum(acc: Fixed, panels: Seq<Panel>, width: Fixed) -> Fixed {
    acc.spec_add(spec_simpson_scale(simpson_total(Fixed { raw: 0 }, panels), width))
}

/// Whether `ys` holds, for each sub-interval in turn, a value that `f` can
/// return at its left edge.
pub open spec fn samples_left_edges<F: Fn(Fixed) -> Fixed>(
    f: F,
    lower: Fixed,
    width: Fixed,
    ys: Seq<Fixed>,
) -> bool {
    forall|i: int|
        0 <= i < ys.len() ==> f.ensures((spec_left_edge(lower, width, i as u64),), #[trigger] ys[i])
}

/// Whether `values` holds three values that `f` can return at the three
/// abscissae of the sub-interval that starts at `left`.
pub open spec fn samples_panel<F: Fn(Fixed) -> Fixed>(
    f: F,
    left: Fixed,
    width: Fixed,
    values: Panel,
) -> bool {
    &&& f.ensures((spec_panel_points(left, width).left,), values.left)
    &&& f.ensures((spec_panel_points(left, width).mid,), values.mid)
    &&& f.ensures((spec_panel_points(left, width).right,), values.right)
}

/// Whether `panels` holds, for each sub-interval in turn, values that `f` can
/// return at its three abscissae.
pub open spec fn samples_panels<F: Fn(Fixed) -> Fixed>(
    f: F,
    lower: Fixed,
    width: Fixed,
    panels: Seq<Panel>,
) -> bool {
    forall|i: int|
        0 <= i < panels.len() ==> samples_panel(
            f,
            spec_left_edge(lower, width, i as u64),
            width,
            #[trigger] panels[i],
        )
}

/// Whether `f` may be called at the left edge of each of the `n`
/// sub-intervals.
pub open spec fn defined_at_left_edges<F: Fn(Fixed) -> Fixed>(
    f: F,
    lower: Fixed,
    width: Fixed,
    n: u64,
) -> bool {
    forall|i: u64| i < n ==> f.requires((#[trigger] spec_left_edge(lower, width, i),))
}

/// Whether `f` may be called at the three abscissae of each of the `n`
/// sub-intervals.
pub open spec fn defined_at_panels<F: Fn(Fixed) -> Fixed>(
    f: F,
    lower: Fixed,
    width: Fixed,
    n: u64,
) -> bool {
    forall|i: u64|
        i < n ==> {
            let points = spec_panel_points(#[trigger] spec_left_edge(lower, width, i), width);
            &&& f.requires((points.left,))
            &&& f.requires((points.mid,))
            &&& f.requires((points.right,))
        }
}

/// The signed width of one of `n` equal sub-intervals between two bounds.
#[verifier::when_used_as_spec(spec_interval_width)]
pub fn interval_width(lower: Fixed, upper: Fixed, n: u64) -> (width: Fixed)
    requires
        n > 0,
    ensures
        width == spec_interval_width(lower, upper, n),
{
    upper.sub(lower).div_int(n)
}

/// The left edge of sub-interval `i`, counted from zero.
#[verifier::when_used_as_spec(spec_left_edge)]
pub fn left_edge(lower: Fixed, width: Fixed, i: u64) -> (x: Fixed)
    ensures
        x == spec_left_edge(lower, width, i),
{
    lower.add(width.mul_int(i))
}

/// The three abscissae of the sub-interval that starts at `left`.
#[verifier::when_used_as_spec(spec_panel_points)]
pub fn panel_points(left: Fixed, width: Fixed) -> (points: Panel)
    ensures
        points == spec_panel_points(left, width),
{
    Panel { left, mid: left.add(width.div_int(2)), right: left.add(width) }
}

/// Adds the rectangle of height `y` to a running sum.
#[verifier::when_used_as_spec(spec_riemann_accumulate)]
pub fn riemann_accumulate(acc: Fixed, y: Fixed, width: Fixed) -> (r: Fixed)
    ensures
        r == spec_riemann_accumulate(acc, y, width),
{
    acc.add(y.mul(width))
}

/// Adds the weighted values of one panel to a running total.
#[verifier::when_used_as_spec(spec_simpson_accumulate)]
pub fn simpson_accumulate(acc: Fixed, values: Panel) -> (r: Fixed)
    ensures
        r == spec_simpson_accumulate(acc, values),
{
    acc.add(values.left.add(values.mid.mul_int(4)).add(values.right))
}

/// Scales a total of weighted values once by a sixth of the width.
#[verifier::when_used_as_spec(spec_simpson_scale)]
pub fn simpson_scale(total: Fixed, width: Fixed) -> (r: Fixed)
    ensures
        r == spec_simpson_scale(total, width),
{
    total.mul(width).div_int(6)
}

/// What an [`Integral`] holds.
pub ghost struct IntegralView<F> {
    pub function: F,
    pub lower_bound: Fixed,
    pub upper_bound: Fixed,
    pub num_intervals: u64,
    pub result: Fixed,
}

impl<F> IntegralView<F> {
    /// The signed width of one sub-interval of the task.
    pub open spec fn width(self) -> Fixed {
        spec_interval_width(self.lower_bound, self.upper_bound, self.num_intervals)
    }
}

/// A function, two bounds, a count of sub-intervals greater than zero, and
/// the running result.
pub struct Integral<F> {
    function: F,
    lower_bound: Fixed,
    upper_bound: Fixed,
    num_intervals: u64,
    result: Fixed,
}

impl<F> View for Integral<F> {
    type V = IntegralView<F>;

    closed spec fn view(&self) -> IntegralView<F> {
        IntegralView {
            function: self.function,
            lower_bound: self.lower_bound,
            upper_bound: self.upper_bound,
            num_intervals: self.num_intervals,
            result: self.result,
        }
    }
}

impl<F> Integral<F> {
    #[verifier::type_invariant]
    spec fn count_is_positive(&self) -> bool {
        self.num_intervals > 0
    }
}

impl<F: Fn(Fixed) -> Fixed> Integral<F> {
    /// A task for `function` between the two bounds, which may come in
    /// either order. A count of zero is replaced by the default; the running
    /// result starts at zero.
    pub fn new(function: F, lower_bound: Fixed, upper_bound: Fixed, num_intervals: u64) -> (t: Self)
        ensures
            t@ == (IntegralView {
                function,
                lower_bound,
                upper_bound,
                num_intervals: effective_num_intervals(num_intervals),
                result: Fixed { raw: 0 },
            }),
    {
        let num_intervals = if num_intervals > 0 {
            num_intervals
        } else {
            DEFAULT_NUM_INTERVALS
        };
        Integral { function, lower_bound, upper_bound, num_intervals, result: Fixed::zero() }
    }

    /// The function that is integrated.
    pub fn function(&self) -> (f: &F)
        ensures
            *f == self@.function,
    {
        &self.function
    }

    /// The bound the rules start from.
    pub fn lower_bound(&self) -> (x: Fixed)
        ensures
            x == self@.lower_bound,
    {
        self.lower_bound
    }

    /// The bound the rules walk toward.
    pub fn upper_bound(&self) -> (x: Fixed)
        ensures
            x == self@.upper_bound,
    {
        self.upper_bound
    }

    /// The count of sub-intervals the task works with, which is greater
    /// than zero.
    pub fn num_intervals(&self) -> (n: u64)
        ensures
            n == self@.num_intervals,
            n > 0,
    {
        proof {
            use_type_invariant(self);
        }
        self.num_intervals
    }

    /// The left-rectangle rule: for each sub-interval in turn, the value of
    /// the function at its left edge times the width is added to the running
    /// result, which is returned.
    pub fn riemann_integration(&mut self) -> (r: Fixed)
        requires
            defined_at_left_edges(
                old(self)@.function,
                old(self)@.lower_bound,
                old(self)@.width(),
                old(self)@.num_intervals,
            ),
        ensures
            final(self)@ == (IntegralView { result: r, ..old(self)@ }),
            exists|ys: Seq<Fixed>|
                {
                    &&& ys.len() == old(self)@.num_intervals
                    &&& samples_left_edges(
                        old(self)@.function,
                        old(self)@.lower_bound,
                        old(self)@.width(),
                        ys,
                    )
                    &&& r == riemann_sum(old(self)@.result, ys, old(self)@.width())
                },
    {
        proof {
            use_type_invariant(&*self);
        }
        let width = interval_width(self.lower_bound, self.upper_bound, self.num_intervals);
        let mut acc = self.result;
        let ghost mut ys: Seq<Fixed> = Seq::empty();
        let mut i: u64 = 0;
        while i < self.num_intervals
            invariant
                *self == *old(self),
                width == self@.width(),
                defined_at_left_edges(self@.function, self@.lower_bound, width, self@.num_intervals),
                i <= self@.num_intervals,
                ys.len() == i,
                samples_left_edges(self@.function, self@.lower_bound, width, ys),
                acc == riemann_sum(self@.result, ys, width),
            decreases self@.num_intervals - i,
        {
            let x = left_edge(self.lower_bound, width, i);
            let y = (self.function)(x);
            acc = riemann_accumulate(acc, y, width);
            proof {
                assert(ys.push(y).drop_last() == ys);
                ys = ys.push(y);
            }
            i = i + 1;
        }
        self.result = acc;
        acc
    }

    /// Simpson's 1/3 rule, one panel per sub-interval: for each sub-interval
    /// in turn, the values of the function at its left edge, four times at
    /// its midpoint and at its right edge are added to a total that starts
    /// at zero; after the last one the total is scaled once by a sixth of
    /// the width and added to the running result, which is returned.
    pub fn simpson_integration_one_third(&mut self) -> (r: Fixed)
        requires
            defined_at_panels(
                old(self)@.function,
                old(self)@.lower_bound,
                old(self)@.width(),
                old(self)@.num_intervals,
            ),
        ensures
            final(self)@ == (IntegralView { result: r, ..old(self)@ }),
            exists|panels: Seq<Panel>|
                {
                    &&& panels.len() == old(self)@.num_intervals
                    &&& samples_panels(
                        old(self)@.function,
                        old(self)@.lower_bound,
                        old(self)@.width(),
                        panels,
                    )
                    &&& r == simpson_sum(old(self)@.result, panels, old(self)@.width())
                },
    {
        proof {
            use_type_invariant(&*self);
        }
        let width = interval_width(self.lower_bound, self.upper_bound, self.num_intervals);
        let mut total = Fixed::zero();
        let ghost mut panels: Seq<Panel> = Seq::empty();
        let mut i: u64 = 0;
        while i < self.num_intervals
            invariant
                *self == *old(self),
                width == self@.width(),
                defined_at_panels(self@.function, self@.lower_bound, width, self@.num_intervals),
                i <= self@.num_intervals,
                panels.len() == i,
                samples_panels(self@.function, self@.lower_bound, width, panels),
                total == simpson_total(Fixed { raw: 0 }, panels),
            decreases self@.num_intervals - i,
        {
            let points = panel_points(left_edge(self.lower_bound, width, i), width);
            let values = Panel {
                left: (self.function)(points.left),
                mid: (self.function)(points.mid),
                right: (self.function)(points.right),
            };
            total = simpson_accumulate(total, values);
            proof {
                assert(panels.push(values).drop_last() == panels);
                panels = panels.push(values);
            }
            i = i + 1;
        }
        let r = self.result.add(simpson_scale(total, width));
        self.result = r;
        r
    }
}

} // verus!
