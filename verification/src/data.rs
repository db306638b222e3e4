//! The runtime value model: the closed union of values the interpreter
//! computes over, copied by value on every stack operation.

use vstd::prelude::*;

verus! {

/// A runtime value. Integers are signed 32-bit; characters are single
/// Unicode scalars.
#[derive(Clone, Copy, Debug, PartialEq, Eq, Structural)]
pub enum Data {
    Int(i32),
    Char(char),
}

} // verus!
