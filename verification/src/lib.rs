//! A virtual-register allocator for a bytecode compiler.
//!
//! While a function body is compiled, every intermediate value and every local lives in
//! a slot of the function's register file. [`register::RegisterAllocator`] hands the
//! slots out, takes them back, and tells at the end how many slots the frame of the
//! function needs. [`model`] says what the register file is as a sequence of slot
//! states, and [`trace`] what holds of it over any sequence of requests.

pub mod flags;
pub mod model;
pub mod register;
pub mod trace;
