//! A verified marketplace core for recurring compute jobs.
//!
//! Consumers register jobs, each with a recurring execution schedule, resource
//! needs and a reward budget. Providers advertise capacity and per-asset
//! pricing. A matcher proposes job-to-provider pairings; the engine checks
//! admission (scheduling window, memory, network quota, storage capacity,
//! whitelists, pricing) and schedule conflicts, reserves fees under checked
//! arithmetic, and tracks each assignment through acknowledgement, periodic
//! reports and completion. Every operation is all-or-nothing: a failed call
//! leaves the store exactly as it was.

pub mod alist;
pub mod types;
pub mod schedule;
pub mod store;
pub mod advertising;
pub mod lifecycle;
pub mod matching;
mod maps;

pub use store::Marketplace;

pub use types::{
    Advertisement, AdvertisementRestriction, AllowedSourcesUpdate, Assignment, Error,
    ExecutionResult, JobId, JobRegistration, JobStatus, ListUpdateOperation, Match,
    PlannedExecution, PricingVariant, Reward, SLA, Schedule, SchedulingWindow,
    MAX_ALLOWED_CONSUMERS, MAX_ALLOWED_SOURCES, MAX_EXECUTIONS_PER_JOB, MAX_PRICING_VARIANTS,
};
