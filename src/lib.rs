//! Decision logic of a daemon that throttles the CPU allowance of windows
//! that are unfocused or hidden, and leaves the visible ones unconstrained.

pub mod tree;
pub mod classify;
pub mod control;
pub mod dispatch;
pub mod report;
