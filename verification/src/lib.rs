//! An in-process relational data engine for a university timetable manager:
//! an entity store with cross-table relations, a scheduling-conflict checker,
//! a round-robin group-distribution algorithm, and a bounded audit log.

#![verifier::loop_isolation(false)]

use vstd::prelude::*;

pub mod models;
pub mod text;
pub mod groups;
pub mod tokens;
pub mod store;
pub mod seqs;
pub mod crud;
pub mod subjects;
pub mod users;
pub mod auth;
pub mod schedule;
pub mod search;
pub mod distribute;
pub mod seed;
pub mod service;
pub mod api;
pub mod laws;

verus! {

/// Number of rows in one page of a paginated listing.
pub const PAGE_SIZE: usize = 10;

} // verus!
