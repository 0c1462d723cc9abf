//! A single-threaded async runtime modelled as verified state machines.
//!
//! The executor's scheduling, the reactor's registration table, the timer
//! and socket futures' poll decisions are all plain-value state machines
//! here; the program around them performs the system calls and polls the
//! real futures, and hands the outcomes back.

pub mod reactor;
pub mod timer;
pub mod executor;
pub mod net;
pub mod listener;
pub mod stream;
pub mod task_list;
pub mod compare;
pub mod runs;
