//! Control core of a concurrent N-body gravity simulator.
//!
//! The floating-point physics (force evaluation, integrator updates, merges of
//! body records) runs outside this crate; what is kept here is the discrete
//! skeleton that decides what that physics does: the integration method and
//! its cycling, the upper-triangular pair grid and its partition into worker
//! slices, the walk through a slice, merge bookkeeping on the body list,
//! cadence retuning, and the driver's run-state machine.
pub mod method;
pub mod pairs;
pub mod merge;
pub mod driver;
pub mod control;
pub mod parent;
