//! Resolution of coordinate intervals against a maximum extent.
//!
//! Every sub-slicing operation validates its bounds through [`derange`]:
//! it turns an interval — possibly open at either end — plus the extent
//! being sliced into a concrete `(start, length)` pair, or rejects it.

use vstd::prelude::*;
use crate::size::Size;

verus! {

/// One end of a coordinate interval.
#[derive(Clone, Copy)]
pub enum Bound<S> {
    /// The interval continues to the edge of the region.
    Unbounded,
    /// The endpoint itself belongs to the interval.
    Included(S),
    /// Only what lies strictly past the endpoint belongs to the interval.
    Excluded(S),
}

/// A coordinate interval, given by a bound at each end.
#[derive(Clone, Copy)]
pub struct Span<S> {
    pub start: Bound<S>,
    pub end: Bound<S>,
}

impl<S: Size> Span<S> {
    /// The half-open interval from `a` up to, but not including, `b`.
    pub fn range(a: S, b: S) -> (r: Span<S>)
        ensures
            r == (Span { start: Bound::Included(a), end: Bound::Excluded(b) }),
    {
        Span { start: Bound::Included(a), end: Bound::Excluded(b) }
    }

    /// The interval from `a` up to and including `b`.
    pub fn range_inclusive(a: S, b: S) -> (r: Span<S>)
        ensures
            r == (Span { start: Bound::Included(a), end: Bound::Included(b) }),
    {
        Span { start: Bound::Included(a), end: Bound::Included(b) }
    }

    /// The interval from the start up to, but not including, `b`.
    pub fn range_to(b: S) -> (r: Span<S>)
        ensures
            r == (Span { start: Bound::Unbounded, end: Bound::Excluded(b) }),
    {
        Span { start: Bound::Unbounded, end: Bound::Excluded(b) }
    }

    /// The interval from `a` to the edge of the region.
    pub fn range_from(a: S) -> (r: Span<S>)
        ensures
            r == (Span { start: Bound::Included(a), end: Bound::Unbounded }),
    {
        Span { start: Bound::Included(a), end: Bound::Unbounded }
    }

    /// The whole extent.
    pub fn full() -> (r: Span<S>)
        ensures
            r == (Span::<S> { start: Bound::Unbounded, end: Bound::Unbounded }),
    {
        Span { start: Bound::Unbounded, end: Bound::Unbounded }
    }

    /// An interval from explicit bounds.
    pub fn new(start: Bound<S>, end: Bound<S>) -> (r: Span<S>)
        ensures
            r == (Span { start, end }),
    {
        Span { start, end }
    }
}

/// The resolved start of an interval, as a mathematical integer.
/// An excluded start one past the type's maximum is ruled out by the
/// length rules below, never accepted.
pub open spec fn spec_span_start<S: Size>(r: Span<S>) -> int {
    match r.start {
        Bound::Unbounded => 0,
        Bound::Included(s) => s.as_int(),
        Bound::Excluded(s) => s.as_int() + 1,
    }
}

/// What interval resolution returns: `Some((start, length))` exactly when
/// the interval lies inside `0 .. max`, with an end bound equal to `max`
/// accepted only in its excluded or unbounded form.
pub open spec fn spec_derange<S: Size>(r: Span<S>, max: int) -> Option<(int, int)> {
    let start = spec_span_start(r);
    match r.end {
        Bound::Unbounded => if start <= max {
            Some((start, max - start))
        } else {
            None
        },
        Bound::Excluded(e) => if e.as_int() <= max && start <= e.as_int() {
            Some((start, e.as_int() - start))
        } else {
            None
        },
        Bound::Included(e) => if e.as_int() < max && start <= e.as_int() {
            Some((start, e.as_int() + 1 - start))
        } else {
            None
        },
    }
}

/// A resolved interval always fits inside the extent.
pub proof fn lemma_derange_in_bounds<S: Size>(r: Span<S>, max: int)
    requires
        spec_derange(r, max) is Some,
    ensures
        0 <= spec_derange(r, max)->Some_0.0,
        0 <= spec_derange(r, max)->Some_0.1,
        spec_derange(r, max)->Some_0.0 + spec_derange(r, max)->Some_0.1 <= max,
{
    match r.start {
        Bound::Unbounded => {},
        Bound::Included(s) => s.lemma_bounds(),
        Bound::Excluded(s) => s.lemma_bounds(),
    }
}

/// Resolve an interval against the extent `max`.
///
/// Returns the concrete `(start, length)` pair the interval denotes, or
/// `None` where the interval does not fit — including the easily missed
/// boundary case of an inclusive end bound equal to `max` itself, which
/// is out of range even though the excluded end bound `max` is accepted.
pub fn derange<S: Size>(r: Span<S>, max: S) -> (res: Option<(S, S)>)
    ensures
        match res {
            Some(p) => spec_derange(r, max.as_int()) == Some((p.0.as_int(), p.1.as_int())),
            None => spec_derange(r, max.as_int()) is None,
        },
{
    proof {
        max.lemma_bounds();
    }
    let start: S = match r.start {
        Bound::Unbounded => S::zero(),
        Bound::Included(s) => s,
        Bound::Excluded(s) => match s.checked_limited_add(S::one()) {
            Some(v) => v,
            None => {
                return None;
            },
        },
    };
    let len: S = match r.end {
        Bound::Unbounded => match max.checked_limited_sub(start) {
            Some(l) => l,
            None => {
                return None;
            },
        },
        Bound::Excluded(e) => if e.le(max) {
            match e.checked_limited_sub(start) {
                Some(l) => l,
                None => {
                    return None;
                },
            }
        } else {
            return None;
        },
        Bound::Included(e) => if e.lt(max) && start.le(e) {
            proof {
                e.lemma_bounds();
                start.lemma_bounds();
            }
            match e.checked_limited_sub(start) {
                Some(d) => match d.checked_limited_add(S::one()) {
                    Some(l) => l,
                    None => {
                        return None;
                    },
                },
                None => {
                    return None;
                },
            }
        } else {
            return None;
        },
    };
    proof {
        start.lemma_bounds();
        len.lemma_bounds();
    }
    Some((start, len))
}

/// Boundary behaviour of interval resolution, for any extent `max`:
/// the half-open interval `0..max` resolves to the whole extent, the
/// empty interval `max..max` resolves to a zero-length interval at the
/// very end, and the inclusive interval `0..=max` is rejected.
pub proof fn lemma_derange_boundaries<S: Size>(zero: S, max: S)
    requires
        zero.as_int() == 0,
    ensures
        spec_derange(
            (Span { start: Bound::Included(zero), end: Bound::Excluded(max) }),
            max.as_int(),
        ) == Some((0int, max.as_int())),
        spec_derange(
            (Span { start: Bound::Included(max), end: Bound::Excluded(max) }),
            max.as_int(),
        ) == Some((max.as_int(), 0int)),
        spec_derange(
            (Span { start: Bound::Included(zero), end: Bound::Included(max) }),
            max.as_int(),
        ) is None,
{
    max.lemma_bounds();
}

/// For a positive extent `max`, the inclusive interval `0..=max-1`
/// resolves to the whole extent, even though `0..=max` is rejected.
pub proof fn lemma_derange_inclusive_last<S: Size>(zero: S, last: S, max: S)
    requires
        zero.as_int() == 0,
        max.as_int() == last.as_int() + 1,
    ensures
        spec_derange(
            (Span { start: Bound::Included(zero), end: Bound::Included(last) }),
            max.as_int(),
        ) == Some((0int, max.as_int())),
{
    last.lemma_bounds();
}

} // verus!
