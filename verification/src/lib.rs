//! Signed fixed-point fractions ("fracints") in the half-open range
//! [-1.0, 1.0), stored as plain two's-complement integers whose bits after
//! the sign are all fractional, at bit widths 8, 16, 32, 64 and 128.
//!
//! Every width offers wrapping, checked and saturating arithmetic with the
//! overflow rules stated in each operation's contract; an exact widening and
//! a truncating or rounding narrowing between neighboring widths; slow and
//! fast square roots; and a bit-exact decimal codec with round-to-even.  The
//! contracts are stated over the shared integer model in [`model`], the
//! general laws of the arithmetic are proved in [`laws`], and the
//! arbitrary-precision digit conversions are delegated to `awint`.

pub mod bridge;
pub mod consts;
pub mod fmt;
pub mod laws;
pub mod lemmas;
pub mod model;
pub mod parse;
pub mod sqrt;
pub mod traits;
pub mod w128;
pub mod w16;
pub mod w32;
pub mod w64;
pub mod w8;
pub mod wide;

pub use crate::parse::FracintSerdeError;
pub use crate::traits::{Fracint, FracintDouble, FracintHalf};
pub use crate::w128::fi128;
pub use crate::w16::fi16;
pub use crate::w32::fi32;
pub use crate::w64::fi64;
pub use crate::w8::fi8;
