//! A hill-climbing local search for the job-shop scheduling problem.
//!
//! Schedules are encoded as operation sequences (each job id appears once per
//! operation of that job); decoding such a sequence yields a semi-active
//! schedule whose makespan is defined by [`schedule::decode`].
pub mod instance;
pub mod schedule;
pub mod rng;
pub mod candidate;
mod clock;
pub mod process;
pub mod operator;
pub mod termination;
pub mod hc;
