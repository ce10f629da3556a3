//! Bricklaying transform for layered-manufacturing toolpath programs.
//!
//! A single streaming pass classifies each instruction line, tracks the
//! current layer and internal-wall block, injects synthetic height-change
//! instructions so that alternating internal-wall blocks interlock, and
//! rescales extrusion amounts on shifted blocks. All numeric work is done
//! in exact scaled-decimal arithmetic.

pub mod num;
pub mod scan;
pub mod model;
pub mod transform;
