//! Capability traits tying each fracint width to its stored-integer type and
//! to its neighboring widths.  The linkage is purely type-level: the
//! operations themselves live on the concrete types, with their contracts.

use vstd::prelude::*;

use crate::w128::fi128;
use crate::w16::fi16;
use crate::w32::fi32;
use crate::w64::fi64;
use crate::w8::fi8;

verus! {

/// A fracint width: a plain immutable value wrapping a signed two's
/// complement integer whose bits after the sign are all fractional.
pub trait Fracint {
    /// The stored-integer type.
    type Int;
}

/// A width with a double: lossless widening and the exact widening multiply
/// land in it.
pub trait FracintDouble: Fracint {
    /// The fracint of twice the bit width.
    type Double;
}

/// A width with a half: truncation, rounding narrowing and splitting land in
/// it.
pub trait FracintHalf: Fracint {
    /// The fracint of half the bit width.
    type Half;
}

impl Fracint for fi8 {
    type Int = i8;
}

impl Fracint for fi16 {
    type Int = i16;
}

impl Fracint for fi32 {
    type Int = i32;
}

impl Fracint for fi64 {
    type Int = i64;
}

impl Fracint for fi128 {
    type Int = i128;
}

impl FracintDouble for fi8 {
    type Double = fi16;
}

impl FracintDouble for fi16 {
    type Double = fi32;
}

impl FracintDouble for fi32 {
    type Double = fi64;
}

impl FracintDouble for fi64 {
    type Double = fi128;
}

impl FracintHalf for fi16 {
    type Half = fi8;
}

impl FracintHalf for fi32 {
    type Half = fi16;
}

impl FracintHalf for fi64 {
    type Half = fi32;
}

impl FracintHalf for fi128 {
    type Half = fi64;
}

} // verus!
