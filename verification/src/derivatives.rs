//! Finite-difference approximations of the derivative of a function at a
//! point.
//!
//! A [`Derivative`] holds the function, the point and a step greater than
//! zero. Each method evaluates the function at the two points of its stencil
//! and divides the difference of the values by the step.
use crate::fixed::Fixed;
use vstd::prelude::*;

verus! {

/// The raw value of the step used when a caller gives none greater than
/// zero: one millionth, to the nearest unit.
pub const DEFAULT_INCREMENT_RAW: i128 = 18_446_744_073_710;

/// The step used when a caller gives none greater than zero.
pub open spec fn default_increment() -> Fixed {
    Fixed { raw: DEFAULT_INCREMENT_RAW }
}

/// The step a task works with: the requested one when it is greater than
/// zero, the default otherwise.
pub open spec fn effective_increment(requested: Fixed) -> Fixed {
    if requested.raw > 0 {
        requested
    } else {
        default_increment()
    }
}

/// The two points of the forward stencil: `x + h` and `x`.
pub open spec fn forward_points(x: Fixed, h: Fixed) -> (Fixed, Fixed) {
    (x.spec_add(h), x)
}

/// The two points of the backward stencil: `x` and `x - h`.
pub open spec fn backward_points(x: Fixed, h: Fixed) -> (Fixed, Fixed) {
    (x, x.spec_sub(h))
}

/// The two points of the central stencil: `x + h/2` and `x - h/2`.
pub open spec fn central_points(x: Fixed, h: Fixed) -> (Fixed, Fixed) {
    (x.spec_add(h.spec_div_int(2)), x.spec_sub(h.spec_div_int(2)))
}

/// `(upper - lower) / h`.
pub open spec fn spec_difference_quotient(upper: Fixed, lower: Fixed, h: Fixed) -> Fixed {
    upper.spec_sub(lower).spec_div(h)
}

/// Whether `r` is a difference quotient of `f` over `points` with step `h`:
/// the function can return some `upper` at the first point and some `lower`
/// at the second, and `r` is `(upper - lower) / h`.
pub open spec fn is_difference_quotient<F: Fn(Fixed) -> Fixed>(
    f: F,
    points: (Fixed, Fixed),
    h: Fixed,
    r: Fixed,
) -> bool {
    exists|upper: Fixed, lower: Fixed|
        f.ensures((points.0,), upper) && f.ensures((points.1,), lower) && r
            == spec_difference_quotient(upper, lower, h)
}

/// Whether `f` may be called at both points.
pub open spec fn defined_at<F: Fn(Fixed) -> Fixed>(f: F, points: (Fixed, Fixed)) -> bool {
    f.requires((points.0,)) && f.requires((points.1,))
}

/// The difference quotient of two function values over a step: the value at
/// the upper point minus the value at the lower point, divided by the step.
#[verifier::when_used_as_spec(spec_difference_quotient)]
pub fn difference_quotient(upper: Fixed, lower: Fixed, h: Fixed) -> (r: Fixed)
    requires
        h.raw != 0,
    ensures
        r == spec_difference_quotient(upper, lower, h),
{
    upper.sub(lower).div(h)
}

/// What a [`Derivative`] holds.
pub ghost struct DerivativeView<F> {
    pub function: F,
    pub x_coordinate: Fixed,
    pub increment: Fixed,
    pub result: Fixed,
}

/// A function, a point, a step greater than zero, and the result of the
/// latest difference taken.
pub struct Derivative<F> {
    function: F,
    x_coordinate: Fixed,
    increment: Fixed,
    result: Fixed,
}

impl<F> View for Derivative<F> {
    type V = DerivativeView<F>;

    closed spec fn view(&self) -> DerivativeView<F> {
        DerivativeView {
            function: self.function,
            x_coordinate: self.x_coordinate,
            increment: self.increment,
            result: self.result,
        }
    }
}

impl<F> Derivative<F> {
    #[verifier::type_invariant]
    spec fn step_is_positive(&self) -> bool {
        self.increment.raw > 0
    }
}

impl<F: Fn(Fixed) -> Fixed> Derivative<F> {
    /// A task for `function` at `x_coordinate`. A step that is not greater
    /// than zero is replaced by the default; the stored result starts at
    /// zero.
    pub fn new(function: F, x_coordinate: Fixed, increment: Fixed) -> (d: Self)
        ensures
            d@ == (DerivativeView {
                function,
                x_coordinate,
                increment: effective_increment(increment),
                result: Fixed { raw: 0 },
            }),
    {
        let increment = if increment.is_positive() {
            increment
        } else {
            Fixed::from_raw(DEFAULT_INCREMENT_RAW)
        };
        Derivative { function, x_coordinate, increment, result: Fixed::zero() }
    }

    /// The function that is differentiated.
    pub fn function(&self) -> (f: &F)
        ensures
            *f == self@.function,
    {
        &self.function
    }

    /// The point at which the derivative is taken.
    pub fn x_coordinate(&self) -> (x: Fixed)
        ensures
            x == self@.x_coordinate,
    {
        self.x_coordinate
    }

    /// The step the task works with, which is greater than zero.
    pub fn increment(&self) -> (h: Fixed)
        ensures
            h == self@.increment,
            h.raw > 0,
    {
        proof {
            use_type_invariant(self);
        }
        self.increment
    }

    /// The result of the latest difference taken, or zero when none was.
    pub fn get_result(&self) -> (r: Fixed)
        ensures
            r == self@.result,
    {
        self.result
    }

    /// `(f(x + h) - f(x)) / h`, which is also stored as the latest result.
    pub fn forward_difference(&mut self) -> (r: Fixed)
        requires
            defined_at(
                old(self)@.function,
                forward_points(old(self)@.x_coordinate, old(self)@.increment),
            ),
        ensures
            final(self)@ == (DerivativeView { result: r, ..old(self)@ }),
            is_difference_quotient(
                old(self)@.function,
                forward_points(old(self)@.x_coordinate, old(self)@.increment),
                old(self)@.increment,
                r,
            ),
    {
        proof {
            use_type_invariant(&*self);
        }
        let upper = (self.function)(self.x_coordinate.add(self.increment));
        let lower = (self.function)(self.x_coordinate);
        self.result = difference_quotient(upper, lower, self.increment);
        self.result
    }

    /// `(f(x) - f(x - h)) / h`, which is also stored as the latest result.
    pub fn backward_difference(&mut self) -> (r: Fixed)
        requires
            defined_at(
                old(self)@.function,
                backward_points(old(self)@.x_coordinate, old(self)@.increment),
            ),
        ensures
            final(self)@ == (DerivativeView { result: r, ..old(self)@ }),
            is_difference_quotient(
                old(self)@.function,
                backward_points(old(self)@.x_coordinate, old(self)@.increment),
                old(self)@.increment,
                r,
            ),
    {
        proof {
            use_type_invariant(&*self);
        }
        let upper = (self.function)(self.x_coordinate);
        let lower = (self.function)(self.x_coordinate.sub(self.increment));
        self.result = difference_quotient(upper, lower, self.increment);
        self.result
    }

    /// `(f(x + h/2) - f(x - h/2)) / h`, which is also stored as the latest
    /// result.
    pub fn central_difference(&mut self) -> (r: Fixed)
        requires
            defined_at(
                old(self)@.function,
                central_points(old(self)@.x_coordinate, old(self)@.increment),
            ),
        ensures
            final(self)@ == (DerivativeView { result: r, ..old(self)@ }),
            is_difference_quotient(
                old(self)@.function,
                central_points(old(self)@.x_coordinate, old(self)@.increment),
                old(self)@.increment,
                r,
            ),
    {
        proof {
            use_type_invariant(&*self);
        }
        let half_increment = self.increment.div_int(2);
        let upper = (self.function)(self.x_coordinate.add(half_increment));
        let lower = (self.function)(self.x_coordinate.sub(half_increment));
        self.result = difference_quotient(upper, lower, self.increment);
        self.result
    }
}

} // verus!
