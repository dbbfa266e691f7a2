//! Build-time generator for fixed-point numeric constants and
//! series-coefficient tables, rendered as shading-language array literals.
//!
//! A fixed-point value is an integer mantissa stored as a fixed-length
//! sequence of 32-bit limbs, most-significant first, scaled by an implicit
//! binary factor shared by every value of one configuration.  The library
//! derives sine and logarithm series coefficients, a catalog of named
//! mathematical constants, and the text of the emitted constants file; the
//! two transcendental seeds (pi and ln 2) are supplied by the caller, since
//! only the external fixed-point engine can produce them.

use vstd::prelude::*;

pub mod catalog;
pub mod document;
pub mod fixed;
pub mod limbs;
pub mod render;
pub mod series;

verus! {

/// Directory, relative to the consumer's build, that holds the generated
/// constants file and the auxiliary shader sources copied beside it.
pub fn include_dir() -> (r: &'static str)
    ensures
        r@ == "glsl_out"@,
{
    "glsl_out"
}

} // verus!
