//! The core of a button-and-indicator firmware: slots for shared hardware handles, a tick
//! clock composed from a timer's hardware count and a software overflow count, a wrap-safe
//! debouncer, and the state that the timer and button interrupt handlers share.
use vstd::prelude::*;

pub mod cell;
pub mod clock;
pub mod debounce;
pub mod shared;

verus! {

} // verus!
