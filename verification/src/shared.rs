//! Dimensioned scalars and the dash pattern: thin wrappers that keep a
//! width from being assigned to a height, all in micro-units.

use vstd::prelude::*;

use crate::numbers::Fixed;

verus! {

/// Errors of numeric conversion.
#[derive(Debug, Clone, Copy, PartialEq, Eq, Structural)]
pub enum NumberError {
    InvalidNumberConversion,
}

/// A width in user units.
#[derive(Debug, Clone, Copy, PartialEq, Eq, Structural)]
pub struct Width {
    pub value: Fixed,
}

impl Width {
    pub fn new(v: Fixed) -> (r: Width)
        ensures
            r.value == v,
    {
        Width { value: v }
    }
}

/// A height in user units.
#[derive(Debug, Clone, Copy, PartialEq, Eq, Structural)]
pub struct Height {
    pub value: Fixed,
}

impl Height {
    pub fn new(v: Fixed) -> (r: Height)
        ensures
            r.value == v,
    {
        Height { value: v }
    }
}

/// A stroke width in user units.
#[derive(Debug, Clone, Copy, PartialEq, Eq, Structural)]
pub struct LineWidth {
    pub value: Fixed,
}

impl LineWidth {
    pub fn new(v: Fixed) -> (r: LineWidth)
        ensures
            r.value == v,
    {
        LineWidth { value: v }
    }

    pub fn set(&mut self, v: LineWidth)
        ensures
            *final(self) == v,
    {
        self.value = v.value;
    }
}

impl Default for LineWidth {
    /// One user unit.
    fn default() -> (r: LineWidth)
        ensures
            r.value.micros == 1000000,
    {
        LineWidth { value: Fixed { micros: 1000000 } }
    }
}

/// The shape a stroke's ends are drawn with.
#[derive(Debug, Clone, Copy, PartialEq, Eq, Structural)]
pub enum LineCap {
    Butt,
    Round,
    Square,
}

/// A dash pattern: segment lengths and the phase to start them at.
#[derive(Debug, Clone, PartialEq)]
pub struct DashPattern {
    pub array: Vec<Fixed>,
    pub phase: Fixed,
}

impl DashPattern {
    pub fn new(array: Vec<Fixed>, phase: Fixed) -> (r: DashPattern)
        ensures
            r.array == array,
            r.phase == phase,
    {
        DashPattern { array, phase }
    }

    /// The segment lengths, in order.
    pub fn segments(&self) -> (r: &Vec<Fixed>)
        ensures
            *r == self.array,
    {
        &self.array
    }
}

impl Default for DashPattern {
    /// No dashing: an empty pattern at phase zero.
    fn default() -> (r: DashPattern)
        ensures
            r.array@.len() == 0,
            r.phase.micros == 0,
    {
        DashPattern { array: Vec::new(), phase: Fixed { micros: 0 } }
    }
}

} // verus!
