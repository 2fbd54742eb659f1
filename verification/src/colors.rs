//! Colours of three unbounded channels.

use crate::binary64::{equal, same_number};
use vstd::prelude::*;
use vstd::std_specs::cmp::PartialEqSpecImpl;

verus! {

/// A colour: red, green and blue, each the bit pattern of a binary64 number.
/// A channel may hold any value; only the canvas's text output brings it into
/// the range of a sample.
#[derive(Debug, Clone, Copy)]
pub struct Color {
    pub red: u64,
    pub green: u64,
    pub blue: u64,
}

impl Color {
    /// The colour with the three channels given.
    pub fn color(red: u64, green: u64, blue: u64) -> (c: Color)
        ensures
            c == (Color { red, green, blue }),
    {
        Color { red, green, blue }
    }

    /// Black: every channel is positive zero.
    pub open spec fn black() -> Color {
        Color { red: 0, green: 0, blue: 0 }
    }
}

impl Default for Color {
    /// Black.
    fn default() -> (c: Color)
        ensures
            c == Color::black(),
    {
        Color { red: 0, green: 0, blue: 0 }
    }
}

impl PartialEq for Color {
    /// Two colours are equal when each channel of one denotes the same number
    /// as that channel of the other.
    fn eq(&self, other: &Color) -> (r: bool) {
        equal(self.red, other.red) && equal(self.green, other.green) && equal(
            self.blue,
            other.blue,
        )
    }
}

impl PartialEqSpecImpl for Color {
    open spec fn obeys_eq_spec() -> bool {
        true
    }

    open spec fn eq_spec(&self, other: &Color) -> bool {
        &&& same_number(self.red, other.red)
        &&& same_number(self.green, other.green)
        &&& same_number(self.blue, other.blue)
    }
}

} // verus!
