//! An incremental-counter core built on fixed-width (1024-bit) unsigned
//! arithmetic.
//!
//! The library owns two quantities, a running `total` and a per-tick
//! `increment`, both held as 1024-bit unsigned integers so that ordinary
//! growth never reaches the top of the range. At the (practically
//! unreachable) limits the policy is fixed and proved: a tick wraps the
//! total modulo 2^1024, raising the increment saturates at 2^1024 - 1,
//! and lowering the increment clamps at a floor of 1, so `increment` is
//! never below 1 in any reachable state.

pub mod big_uint;
pub mod counter;
pub mod model;
