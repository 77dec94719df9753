//! Per-axis sizing constraints: minimum, preferred policy and maximum.

use vstd::prelude::*;

verus! {

/// Ceiling on every dimension value the engine works with, in layout units.
/// A maximum equal to `MAX_DIM` behaves as an unbounded maximum.
pub const MAX_DIM: i64 = 0x1_0000_0000;

/// Ceiling on grow factors.
pub const MAX_FACTOR: i64 = 0x1_0000;

/// The preferred sizing behavior for one axis.
#[derive(Clone, Copy, Debug, PartialEq, Eq, Structural)]
pub enum PreferredSize {
    /// Gravitates towards a fixed size.
    Fixed(i64),
    /// No fixed size; grows into free space, weighted by a factor.
    Grow(i64),
}

/// A configuration error raised when a sizing is built from invalid numbers.
#[derive(Clone, Copy, Debug, PartialEq, Eq, Structural)]
pub enum SizingError {
    /// A negative size, bound or factor was supplied.
    Negative,
    /// The supplied minimum exceeds the supplied maximum.
    Inverted,
}

/// The resolved sizing constraints of one axis of one element.
#[derive(Clone, Copy, Debug)]
pub struct SizingDimensions {
    pub(crate) min: i64,
    pub(crate) preferred: PreferredSize,
    pub(crate) max: i64,
}

impl SizingDimensions {
    #[verifier::type_invariant]
    pub(crate) open spec fn inv(self) -> bool {
        &&& 0 <= self.spec_min() <= self.spec_max() <= MAX_DIM
        &&& match self.spec_preferred() {
            PreferredSize::Fixed(v) => self.spec_min() <= v <= self.spec_max(),
            PreferredSize::Grow(f) => 0 <= f <= MAX_FACTOR,
        }
    }

    /// The minimum size, as a mathematical integer.
    pub open(crate) spec fn spec_min(self) -> int {
        self.min as int
    }

    /// The maximum size, as a mathematical integer.
    pub open(crate) spec fn spec_max(self) -> int {
        self.max as int
    }

    /// The preferred sizing policy.
    pub open(crate) spec fn spec_preferred(self) -> PreferredSize {
        self.preferred
    }

    /// Builds resolved dimensions; callers inside the crate must supply
    /// ordered, in-range values.
    pub(crate) fn make(min: i64, preferred: PreferredSize, max: i64) -> (r: Self)
        requires
            0 <= min <= max <= MAX_DIM,
            preferred matches PreferredSize::Fixed(v) ==> min <= v <= max,
            preferred matches PreferredSize::Grow(f) ==> 0 <= f <= MAX_FACTOR,
        ensures
            r.spec_min() == min,
            r.spec_max() == max,
            r.spec_preferred() == preferred,
    {
        SizingDimensions { min, preferred, max }
    }

    /// True if the sizing is fixed and layout calculations will not change it.
    pub open spec fn spec_is_fixed(self) -> bool {
        self.spec_preferred() is Fixed
    }

    /// True if the sizing is fixed and layout calculations will not change it.
    pub fn is_fixed(&self) -> (r: bool)
        ensures
            r == self.spec_is_fixed(),
    {
        matches!(self.preferred, PreferredSize::Fixed(_))
    }

    /// True if the sizing can expand to fill available space.
    pub open spec fn spec_is_growable(self) -> bool {
        self.spec_preferred() is Grow
    }

    /// True if the sizing can expand to fill available space.
    pub fn is_growable(&self) -> (r: bool)
        ensures
            r == self.spec_is_growable(),
    {
        matches!(self.preferred, PreferredSize::Grow(_))
    }

    /// True if the sizing can be reduced when its container overflows.
    pub open spec fn spec_is_shrinkable(self) -> bool {
        self.spec_max() > self.spec_min()
    }

    /// True if the sizing can be reduced when its container overflows.
    pub fn is_shrinkable(&self) -> (r: bool)
        ensures
            r == self.spec_is_shrinkable(),
    {
        self.max > self.min
    }

    /// The grow factor used as a distribution weight; zero unless the
    /// preferred policy is `Grow`.
    pub open spec fn spec_grow_factor(self) -> int {
        match self.spec_preferred() {
            PreferredSize::Grow(f) => f as int,
            _ => 0,
        }
    }

    /// The grow factor used as a distribution weight; zero unless the
    /// preferred policy is `Grow`.
    pub fn get_grow_factor(&self) -> (r: i64)
        ensures
            r == self.spec_grow_factor(),
            0 <= r <= MAX_FACTOR,
    {
        proof {
            use_type_invariant(self);
        }
        match self.preferred {
            PreferredSize::Grow(f) => f,
            _ => 0,
        }
    }

    /// `value` bounded to `[min, max]`.
    pub open spec fn spec_clamped(self, value: int) -> int {
        if value < self.spec_min() {
            self.spec_min()
        } else if value > self.spec_max() {
            self.spec_max()
        } else {
            value
        }
    }

    /// Returns `value` clamped between the minimum and the maximum.
    /// The result always lies within `[min, max]`, whatever the input.
    pub fn clamped(&self, value: i64) -> (r: i64)
        ensures
            r == self.spec_clamped(value as int),
            self.spec_min() <= r <= self.spec_max(),
    {
        proof {
            use_type_invariant(self);
        }
        if value < self.min {
            self.min
        } else if value > self.max {
            self.max
        } else {
            value
        }
    }

    /// The maximum size.
    pub fn max(&self) -> (r: i64)
        ensures
            r == self.spec_max(),
    {
        self.max
    }

    /// The minimum size.
    pub fn min(&self) -> (r: i64)
        ensures
            r == self.spec_min(),
    {
        self.min
    }
}

impl Default for SizingDimensions {
    /// Unconstrained fit: minimum 0, preferred 0, unbounded maximum.
    fn default() -> (r: Self)
        ensures
            r.spec_min() == 0,
            r.spec_max() == MAX_DIM,
            r.spec_preferred() == PreferredSize::Fixed(0),
    {
        SizingDimensions { min: 0, preferred: PreferredSize::Fixed(0), max: MAX_DIM }
    }
}

/// `v` capped at the dimension ceiling.
pub open spec fn cap_dim(v: int) -> int {
    if v > MAX_DIM { MAX_DIM as int } else { v }
}

/// `f` capped at the factor ceiling.
pub open spec fn cap_factor(f: int) -> int {
    if f > MAX_FACTOR { MAX_FACTOR as int } else { f }
}

#[derive(Clone, Copy, Debug)]
pub(crate) enum SizingKind {
    Fit { min: i64, max: i64 },
    Fixed(i64),
    Grow { factor: i64, min: i64, max: i64 },
}

/// The sizing behavior of one axis, as configured by the caller.
///
/// Values are built through the checked constructors: negative inputs are
/// rejected as configuration errors, values beyond the ceilings are capped.
#[derive(Clone, Copy, Debug)]
pub struct Sizing {
    pub(crate) kind: SizingKind,
}

impl Sizing {
    #[verifier::type_invariant]
    pub(crate) open spec fn inv(self) -> bool {
        &&& 0 <= self.spec_dims().spec_min() <= self.spec_dims().spec_max() <= MAX_DIM
        &&& match self.spec_dims().spec_preferred() {
            PreferredSize::Fixed(v) => self.spec_dims().spec_min() <= v
                <= self.spec_dims().spec_max(),
            PreferredSize::Grow(f) => 0 <= f <= MAX_FACTOR,
        }
    }

    /// The constraint triple this sizing resolves to:
    /// `Fixed(v)` pins all three values to `v`; `Fit` prefers its minimum;
    /// `Grow` prefers proportional growth between its bounds.
    pub open(crate) spec fn spec_dims(self) -> SizingDimensions {
        match self.kind {
            SizingKind::Fit { min, max } => SizingDimensions {
                min,
                preferred: PreferredSize::Fixed(min),
                max,
            },
            SizingKind::Fixed(v) => SizingDimensions { min: v, preferred: PreferredSize::Fixed(v), max: v },
            SizingKind::Grow { factor, min, max } => SizingDimensions {
                min,
                preferred: PreferredSize::Grow(factor),
                max,
            },
        }
    }

    /// Resolves this sizing into its constraint triple.
    pub fn dimensions(&self) -> (r: SizingDimensions)
        ensures
            r == self.spec_dims(),
    {
        proof {
            use_type_invariant(self);
        }
        match self.kind {
            SizingKind::Fit { min, max } => SizingDimensions::make(min, PreferredSize::Fixed(min), max),
            SizingKind::Fixed(v) => SizingDimensions::make(v, PreferredSize::Fixed(v), v),
            SizingKind::Grow { factor, min, max } => SizingDimensions::make(
                min,
                PreferredSize::Grow(factor),
                max,
            ),
        }
    }

    /// A fixed size: minimum, preferred and maximum all equal `value`.
    /// Fails with `SizingError::Negative` exactly when `value` is negative.
    pub fn fixed(value: i64) -> (r: Result<Sizing, SizingError>)
        ensures
            value < 0 <==> r == Err::<Sizing, SizingError>(SizingError::Negative),
            value >= 0 ==> (r matches Ok(s) && {
                &&& s.spec_dims().spec_min() == cap_dim(value as int)
                &&& s.spec_dims().spec_max() == cap_dim(value as int)
                &&& s.spec_dims().spec_preferred() == PreferredSize::Fixed(cap_dim(value as int) as i64)
            }),
    {
        if value < 0 {
            Err(SizingError::Negative)
        } else {
            let v = if value > MAX_DIM { MAX_DIM } else { value };
            Ok(Sizing { kind: SizingKind::Fixed(v) })
        }
    }

    /// An unconstrained fit: minimum 0, unbounded maximum.
    pub fn fit() -> (r: Sizing)
        ensures
            r.spec_dims().spec_min() == 0,
            r.spec_dims().spec_max() == MAX_DIM,
            r.spec_dims().spec_preferred() == PreferredSize::Fixed(0),
    {
        Sizing { kind: SizingKind::Fit { min: 0, max: MAX_DIM } }
    }

    /// A fit with an upper bound and no minimum constraint.
    /// Fails with `SizingError::Negative` exactly when `max` is negative.
    pub fn fit_max(max: i64) -> (r: Result<Sizing, SizingError>)
        ensures
            max < 0 <==> r == Err::<Sizing, SizingError>(SizingError::Negative),
            max >= 0 ==> (r matches Ok(s) && {
                &&& s.spec_dims().spec_min() == 0
                &&& s.spec_dims().spec_max() == cap_dim(max as int)
                &&& s.spec_dims().spec_preferred() == PreferredSize::Fixed(0)
            }),
    {
        if max < 0 {
            Err(SizingError::Negative)
        } else {
            let m = if max > MAX_DIM { MAX_DIM } else { max };
            Ok(Sizing { kind: SizingKind::Fit { min: 0, max: m } })
        }
    }

    /// A fit bounded below and above.
    /// Fails with `SizingError::Negative` when either bound is negative, and
    /// with `SizingError::Inverted` when `min` exceeds `max`; succeeds on
    /// exactly the remaining inputs.
    pub fn fit_min_max(min: i64, max: i64) -> (r: Result<Sizing, SizingError>)
        ensures
            (min < 0 || max < 0) <==> r == Err::<Sizing, SizingError>(SizingError::Negative),
            (min >= 0 && max >= 0 && min > max) <==> r == Err::<Sizing, SizingError>(
                SizingError::Inverted,
            ),
            (min >= 0 && max >= 0 && min <= max) ==> (r matches Ok(s) && {
                &&& s.spec_dims().spec_min() == cap_dim(min as int)
                &&& s.spec_dims().spec_max() == cap_dim(max as int)
                &&& s.spec_dims().spec_preferred() == PreferredSize::Fixed(cap_dim(min as int) as i64)
            }),
    {
        if min < 0 || max < 0 {
            Err(SizingError::Negative)
        } else if min > max {
            Err(SizingError::Inverted)
        } else {
            let lo = if min > MAX_DIM { MAX_DIM } else { min };
            let hi = if max > MAX_DIM { MAX_DIM } else { max };
            Ok(Sizing { kind: SizingKind::Fit { min: lo, max: hi } })
        }
    }

    /// Proportional growth with the default factor 1 and no bounds.
    pub fn grow() -> (r: Sizing)
        ensures
            r.spec_dims().spec_min() == 0,
            r.spec_dims().spec_max() == MAX_DIM,
            r.spec_dims().spec_preferred() == PreferredSize::Grow(1),
    {
        Sizing { kind: SizingKind::Grow { factor: 1, min: 0, max: MAX_DIM } }
    }

    /// Proportional growth with an explicit factor and no bounds.
    /// Fails with `SizingError::Negative` exactly when `factor` is negative.
    pub fn grow_factor(factor: i64) -> (r: Result<Sizing, SizingError>)
        ensures
            factor < 0 <==> r == Err::<Sizing, SizingError>(SizingError::Negative),
            factor >= 0 ==> (r matches Ok(s) && {
                &&& s.spec_dims().spec_min() == 0
                &&& s.spec_dims().spec_max() == MAX_DIM
                &&& s.spec_dims().spec_preferred() == PreferredSize::Grow(cap_factor(factor as int) as i64)
            }),
    {
        if factor < 0 {
            Err(SizingError::Negative)
        } else {
            let f = if factor > MAX_FACTOR { MAX_FACTOR } else { factor };
            Ok(Sizing { kind: SizingKind::Grow { factor: f, min: 0, max: MAX_DIM } })
        }
    }

    /// Proportional growth with an explicit factor and explicit bounds.
    /// Fails with `SizingError::Negative` when any input is negative, and with
    /// `SizingError::Inverted` when `min` exceeds `max`; succeeds on exactly
    /// the remaining inputs.
    pub fn grow_bounded(factor: i64, min: i64, max: i64) -> (r: Result<Sizing, SizingError>)
        ensures
            (factor < 0 || min < 0 || max < 0) <==> r == Err::<Sizing, SizingError>(
                SizingError::Negative,
            ),
            (factor >= 0 && min >= 0 && max >= 0 && min > max) <==> r == Err::<Sizing, SizingError>(
                SizingError::Inverted,
            ),
            (factor >= 0 && min >= 0 && max >= 0 && min <= max) ==> (r matches Ok(s) && {
                &&& s.spec_dims().spec_min() == cap_dim(min as int)
                &&& s.spec_dims().spec_max() == cap_dim(max as int)
                &&& s.spec_dims().spec_preferred() == PreferredSize::Grow(cap_factor(factor as int) as i64)
            }),
    {
        if factor < 0 || min < 0 || max < 0 {
            Err(SizingError::Negative)
        } else if min > max {
            Err(SizingError::Inverted)
        } else {
            let f = if factor > MAX_FACTOR { MAX_FACTOR } else { factor };
            let lo = if min > MAX_DIM { MAX_DIM } else { min };
            let hi = if max > MAX_DIM { MAX_DIM } else { max };
            Ok(Sizing { kind: SizingKind::Grow { factor: f, min: lo, max: hi } })
        }
    }
}

impl Default for Sizing {
    /// The default sizing is an unconstrained fit.
    fn default() -> (r: Self)
        ensures
            r.spec_dims().spec_min() == 0,
            r.spec_dims().spec_max() == MAX_DIM,
            r.spec_dims().spec_preferred() == PreferredSize::Fixed(0),
    {
        Sizing::fit()
    }
}

impl vstd::std_specs::convert::FromSpecImpl<Sizing> for SizingDimensions {
    open spec fn obeys_from_spec() -> bool {
        true
    }

    open spec fn from_spec(sizing: Sizing) -> SizingDimensions {
        sizing.spec_dims()
    }
}

impl From<Sizing> for SizingDimensions {
    /// The constraint triple the sizing resolves to.
    fn from(sizing: Sizing) -> (r: Self) {
        sizing.dimensions()
    }
}

/// The sizing behavior of a box, one `Sizing` per axis.
#[derive(Clone, Copy, Debug)]
pub struct BoxSizing {
    pub width: Sizing,
    pub height: Sizing,
}

impl Default for BoxSizing {
    /// Both axes default to an unconstrained fit.
    fn default() -> (r: Self)
        ensures
            r.width.spec_dims() == Sizing::fit_dims(),
            r.height.spec_dims() == Sizing::fit_dims(),
    {
        BoxSizing { width: Sizing::fit(), height: Sizing::fit() }
    }
}

impl BoxSizing {
    /// The sizing of the main axis for the given direction.
    pub fn main(&self, dir: crate::style::layout::Direction) -> (r: Sizing)
        ensures
            dir.spec_is_horizontal() ==> r == self.width,
            !dir.spec_is_horizontal() ==> r == self.height,
    {
        if dir.is_horizontal() {
            self.width
        } else {
            self.height
        }
    }

    /// The sizing of the cross axis for the given direction.
    pub fn cross(&self, dir: crate::style::layout::Direction) -> (r: Sizing)
        ensures
            dir.spec_is_horizontal() ==> r == self.height,
            !dir.spec_is_horizontal() ==> r == self.width,
    {
        if dir.is_horizontal() {
            self.height
        } else {
            self.width
        }
    }
}

impl Sizing {
    /// The constraint triple of an unconstrained fit.
    pub open spec fn fit_dims() -> SizingDimensions {
        SizingDimensions::make_spec(0, PreferredSize::Fixed(0), MAX_DIM as int)
    }
}

impl SizingDimensions {
    /// The constraint triple with the given minimum, policy and maximum.
    pub open(crate) spec fn make_spec(min: int, preferred: PreferredSize, max: int) -> SizingDimensions {
        SizingDimensions { min: min as i64, preferred, max: max as i64 }
    }

    /// Two constraint triples are equal exactly when their accessors agree.
    pub proof fn lemma_dims_ext(d1: SizingDimensions, d2: SizingDimensions)
        ensures
            (d1 == d2) <==> (d1.spec_min() == d2.spec_min() && d1.spec_max() == d2.spec_max()
                && d1.spec_preferred() == d2.spec_preferred()),
    {
    }

    /// `make_spec` pins all three accessors.
    pub proof fn make_spec_accessors(min: int, preferred: PreferredSize, max: int)
        requires
            i64::MIN <= min <= i64::MAX,
            i64::MIN <= max <= i64::MAX,
        ensures
            Self::make_spec(min, preferred, max).spec_min() == min,
            Self::make_spec(min, preferred, max).spec_max() == max,
            Self::make_spec(min, preferred, max).spec_preferred() == preferred,
    {
    }
}

} // verus!
