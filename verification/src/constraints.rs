//! Value-range and size bounds, which decide how wide a field is on the wire.

use vstd::prelude::*;

verus! {

/// Bounds on an integer or on a size, with an extensibility flag. A bound that
/// is `None` is unbounded.
#[derive(Clone, Copy, Debug, PartialEq, Eq, Structural)]
pub struct Constraints {
    pub lower: Option<i128>,
    pub upper: Option<i128>,
    pub extensible: bool,
}

impl Constraints {
    /// Where both bounds are finite, the lower is not above the upper.
    pub open spec fn wf(self) -> bool {
        self.lower is Some && self.upper is Some ==> self.lower->Some_0 <= self.upper->Some_0
    }

    /// No bound at all.
    pub open spec fn unconstrained() -> Constraints {
        Constraints { lower: None, upper: None, extensible: false }
    }

    /// Computes `unconstrained`.
    pub fn none() -> (c: Constraints)
        ensures
            c == Constraints::unconstrained(),
            c.wf(),
    {
        Constraints { lower: None, upper: None, extensible: false }
    }

    /// The bounds `lower..=upper` without extension, or `None` where `lower`
    /// is above `upper`.
    pub fn range(lower: i128, upper: i128) -> (c: Option<Constraints>)
        ensures
            lower <= upper ==> c == Some(
                Constraints { lower: Some(lower), upper: Some(upper), extensible: false },
            ),
            lower > upper ==> c is None,
            c is Some ==> c->Some_0.wf(),
    {
        if lower <= upper {
            Some(Constraints { lower: Some(lower), upper: Some(upper), extensible: false })
        } else {
            None
        }
    }

    /// The single value `value`, without extension.
    pub fn exact(value: i128) -> (c: Constraints)
        ensures
            c == (Constraints { lower: Some(value), upper: Some(value), extensible: false }),
            c.wf(),
    {
        Constraints { lower: Some(value), upper: Some(value), extensible: false }
    }

    /// The same bounds, open to extension.
    pub fn extended(self) -> (c: Constraints)
        ensures
            c == (Constraints { extensible: true, ..self }),
            self.wf() ==> c.wf(),
    {
        Constraints { lower: self.lower, upper: self.upper, extensible: true }
    }

    /// Both bounds are finite and the constraint is closed: the only case in
    /// which a field's width follows from the constraint alone.
    pub open spec fn is_finite(self) -> bool {
        self.lower is Some && self.upper is Some && !self.extensible
    }

    /// Computes `is_finite`.
    pub fn finite(&self) -> (b: bool)
        ensures
            b == self.is_finite(),
    {
        self.lower.is_some() && self.upper.is_some() && !self.extensible
    }

    /// Whether `value` meets the bounds. An extensible constraint admits
    /// every value.
    pub open spec fn admits(self, value: int) -> bool {
        self.extensible || ((self.lower is Some ==> self.lower->Some_0 <= value) && (self.upper
            is Some ==> value <= self.upper->Some_0))
    }

    /// Computes `admits`.
    pub fn contains(&self, value: i128) -> (b: bool)
        ensures
            b == self.admits(value as int),
    {
        if self.extensible {
            return true;
        }
        let above = match self.lower {
            Some(lower) => lower <= value,
            None => true,
        };
        let below = match self.upper {
            Some(upper) => value <= upper,
            None => true,
        };
        above && below
    }
}

} // verus!
