//! Step-vector constants for two-axis buffers.

use vstd::prelude::*;

verus! {

pub const NEXT: [isize; 2] = [1, 0];

pub const PREV: [isize; 2] = [-1, 0];

pub const RIGHT: [isize; 2] = [1, 0];

pub const LEFT: [isize; 2] = [-1, 0];

pub const UP: [isize; 2] = [0, 1];

pub const DOWN: [isize; 2] = [0, -1];

pub const RIGHT_UP: [isize; 2] = [1, 1];

pub const RIGHT_DOWN: [isize; 2] = [1, -1];

pub const LEFT_UP: [isize; 2] = [-1, 1];

pub const LEFT_DOWN: [isize; 2] = [-1, -1];

} // verus!
