//! Data model of the marketplace: identities, schedules, registrations,
//! advertisements, assignments and the error taxonomy.

use vstd::prelude::*;

verus! {

/// Upper bound on the number of executions a single job's schedule may contain.
pub const MAX_EXECUTIONS_PER_JOB: u64 = 10000;

/// Upper bound on the length of a job's allowed-sources whitelist.
pub const MAX_ALLOWED_SOURCES: usize = 100;

/// Upper bound on the length of a provider's allowed-consumers whitelist.
pub const MAX_ALLOWED_CONSUMERS: usize = 100;

/// Upper bound on the number of pricing variants in one advertisement.
pub const MAX_PRICING_VARIANTS: usize = 100;

/// Identifies a job by the account that registered it and the script it runs.
#[derive(Clone, Copy, PartialEq, Eq, Structural, Debug)]
pub struct JobId {
    pub consumer: u64,
    pub script: u64,
}

/// A recurring time plan: executions of length `duration` start at
/// `start_time` and repeat every `interval` milliseconds until `end_time`.
#[derive(Clone, Copy, PartialEq, Eq, Structural, Debug)]
pub struct Schedule {
    pub start_time: u64,
    pub end_time: u64,
    pub interval: u64,
    pub duration: u64,
}

/// A reward: an amount of one asset.
#[derive(Clone, Copy, PartialEq, Eq, Structural, Debug)]
pub struct Reward {
    pub asset: u64,
    pub amount: u128,
}

/// A job's resource and reward contract, immutable once the job is matched.
/// The reward is understood per slot and per execution.
#[derive(Clone, Debug)]
pub struct JobRegistration {
    pub schedule: Schedule,
    pub slots: u8,
    pub memory: u32,
    pub storage: u32,
    pub network_requests: u64,
    pub reward: Reward,
    pub allow_only_verified_sources: bool,
    pub allowed_sources: Option<Vec<u64>>,
}

/// Lifecycle marker of a registered job.
#[derive(Clone, Copy, PartialEq, Eq, Structural, Debug)]
pub enum JobStatus {
    Open,
    Matched,
    Assigned(u8),
}

impl Default for JobStatus {
    /// A newly registered job starts open.
    fn default() -> (r: Self)
        ensures
            r == JobStatus::Open,
    {
        JobStatus::Open
    }
}

/// The deadline by which a provider guarantees availability: an absolute
/// timestamp, or a window relative to the time of matching.
#[derive(Clone, Copy, PartialEq, Eq, Structural, Debug)]
pub enum SchedulingWindow {
    End(u64),
    Delta(u64),
}

/// A provider's price for jobs rewarded in one asset.
#[derive(Clone, Copy, PartialEq, Eq, Structural, Debug)]
pub struct PricingVariant {
    pub reward_asset: u64,
    pub fee_per_millisecond: u128,
    pub fee_per_storage_byte: u128,
    pub base_fee_per_execution: u128,
    pub scheduling_window: SchedulingWindow,
}

/// A provider's capability envelope, one per provider.
#[derive(Clone, Debug)]
pub struct AdvertisementRestriction {
    pub max_memory: u32,
    pub network_request_quota: u32,
    pub storage_capacity: u32,
    pub allowed_consumers: Option<Vec<u64>>,
}

/// What a provider submits to advertise: the capability envelope plus a
/// pricing variant for each accepted reward asset.
#[derive(Clone, Debug)]
pub struct Advertisement {
    pub max_memory: u32,
    pub network_request_quota: u32,
    pub storage_capacity: u32,
    pub allowed_consumers: Option<Vec<u64>>,
    pub pricing: Vec<PricingVariant>,
}

/// One proposed slot of a match: a provider and the delay it adds to the
/// schedule's base cadence.
#[derive(Clone, Copy, PartialEq, Eq, Structural, Debug)]
pub struct PlannedExecution {
    pub source: u64,
    pub start_delay: u64,
}

/// A proposed pairing of one job with one provider per slot.
#[derive(Clone, Debug)]
pub struct Match {
    pub job_id: JobId,
    pub sources: Vec<PlannedExecution>,
}

/// Expected versus actually reported executions of an assignment.
#[derive(Clone, Copy, PartialEq, Eq, Structural, Debug)]
pub struct SLA {
    pub total: u64,
    pub met: u64,
}

/// The committed pairing of one provider to one slot of one job.
#[derive(Clone, Copy, PartialEq, Eq, Structural, Debug)]
pub struct Assignment {
    pub slot: u8,
    pub start_delay: u64,
    pub fee_per_execution: Reward,
    pub acknowledged: bool,
    pub sla: SLA,
}

/// Whether a whitelist update adds or removes an entry.
#[derive(Clone, Copy, PartialEq, Eq, Structural, Debug)]
pub enum ListUpdateOperation {
    Add,
    Remove,
}

/// One update to a job's allowed-sources whitelist.
#[derive(Clone, Copy, PartialEq, Eq, Structural, Debug)]
pub struct AllowedSourcesUpdate {
    pub operation: ListUpdateOperation,
    pub item: u64,
}

/// The outcome a provider reports for one execution.
#[derive(Clone, Copy, PartialEq, Eq, Structural, Debug)]
pub enum ExecutionResult {
    Success(u64),
    Failure(u64),
}

/// An optional whitelist, read as an optional sequence.
pub open spec fn opt_vec_view(o: Option<Vec<u64>>) -> Option<Seq<u64>> {
    match o {
        Some(v) => Some(v@),
        None => None,
    }
}

/// Everything that can go wrong in a marketplace operation. Admission errors
/// and lifecycle violations leave the store untouched.
#[derive(Clone, Copy, PartialEq, Eq, Structural, Debug)]
pub enum Error {
    /// A checked addition, subtraction or multiplication would overflow.
    CalculationOverflow,
    /// The registration's schedule must have a non-zero `duration`.
    JobRegistrationZeroDuration,
    /// The registration's schedule exceeds [`MAX_EXECUTIONS_PER_JOB`].
    JobRegistrationScheduleExceedsMaximumExecutions,
    /// The registration must have `duration` < `interval`.
    JobRegistrationDurationExceedsInterval,
    /// The registration must have `start_time` in the future.
    JobRegistrationStartInPast,
    /// The registration must have `end_time` >= `start_time`.
    JobRegistrationEndBeforeStart,
    /// The registration must have non-zero `slots`.
    JobRegistrationZeroSlots,
    /// The registration must have a non-zero reward amount.
    JobRegistrationZeroReward,
    /// No registration stored for the given job.
    JobRegistrationNotFound,
    /// No status stored for the given job although one was owed: the store is
    /// inconsistent with prior operations.
    JobStatusNotFound,
    /// The job can no longer be modified.
    JobRegistrationUnmodifiable,
    /// The allowed-sources whitelist, if present, must not be empty.
    TooFewAllowedSources,
    /// The allowed-sources whitelist exceeds [`MAX_ALLOWED_SOURCES`].
    TooManyAllowedSources,
    /// A bounded collection exceeds its capacity.
    LengthExceeded,
    /// An advertisement must carry at least one pricing variant.
    EmptyPricing,
    /// The reward asset is not accepted by the asset policy.
    InvalidAssetId,
    /// No advertisement stored for the proposed provider.
    AdvertisementNotFound,
    /// The proposed provider has no pricing for the job's reward asset.
    AdvertisementPricingNotFound,
    /// An advertisement cannot be deleted while any assignment references it.
    CannotDeleteAdvertisementWhileMatched,
    /// No capacity entry stored for a provider although one was owed: the
    /// store is inconsistent with prior operations.
    CapacityNotFound,
    /// The proposed matching contains no match.
    EmptyMatching,
    /// The job's schedule has already started.
    OverdueMatch,
    /// The number of proposed providers differs from the job's slots.
    IncorrectSourceCountInMatch,
    /// The same provider was proposed twice for one job, or is already
    /// assigned to it.
    DuplicateSourceInMatch,
    /// The job admits only verified providers and one proposed is not.
    UnverifiedSourceInMatch,
    /// All matches of one call must be rewarded in the same asset.
    MultipleRewardAssetsInMatch,
    /// The provider's scheduling window ends before the job would.
    SchedulingWindowExceededInMatch,
    /// The provider advertises less memory than the job needs.
    MaxMemoryExceededInMatch,
    /// The provider's network request quota does not cover the job's needs.
    NetworkRequestQuotaExceededInMatch,
    /// The provider has no remaining storage capacity.
    InsufficientStorageCapacityInMatch,
    /// The proposed provider is not on the job's whitelist.
    SourceNotAllowedInMatch,
    /// The job's consumer is not on the provider's whitelist.
    ConsumerNotAllowedInMatch,
    /// The job's reward does not cover the provider's fee.
    InsufficientRewardInMatch,
    /// The job's schedule overlaps a schedule already committed to the
    /// provider.
    ScheduleOverlapInMatch,
    /// A report arrived from a provider that is not assigned to the job.
    ReportFromUnassignedSource,
    /// Acknowledge requires a job previously matched to the caller.
    CannotAcknowledgeWhenNotMatched,
    /// Report requires an acknowledged assignment.
    CannotReportWhenNotAcknowledged,
    /// More reports than agreed executions.
    MoreReportsThanExpected,
    /// The report arrived outside every agreed execution window.
    ReportOutsideSchedule,
}

} // verus!
