//! A differential benchmarking harness: it runs a campaign of repeated tests
//! against managed services, measures the energy, network transfer and
//! storage of each execution, and summarises them per test.

use vstd::prelude::*;

pub mod iteration_scheduler;
pub mod decimal;
pub mod system_call;
pub mod report;
pub mod service;
pub mod etscomponent;
pub mod campaign;
pub mod etsdiff;

verus! {

} // verus!
