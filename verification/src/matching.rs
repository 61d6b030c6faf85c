//! The matching engine: decides whether a proposed job-to-provider pairing
//! is admissible, reserves fees under checked arithmetic, and commits
//! assignments all-or-nothing. The spec functions here are the exact
//! transition semantics; the executable operations are proved equal to them.

use vstd::prelude::*;
use vstd::arithmetic::div_mod::lemma_div_pos_is_pos;
use crate::alist::{alist_find, alist_unique, alist_upsert};
use crate::store::{sla_bounded, AssignmentKey, Marketplace};
use crate::types::{
    AdvertisementRestriction, Assignment, Error, JobId, JobRegistration, JobStatus, Match,
    PlannedExecution, PricingVariant, Reward, SchedulingWindow, Schedule, SLA,
};

verus! {

/// The fee a provider charges for one execution of a job:
/// `fee_per_millisecond * duration + fee_per_storage_byte * storage +
/// base_fee_per_execution`.
pub open spec fn fee_for_execution(reg: JobRegistration, p: PricingVariant) -> int {
    p.fee_per_millisecond * reg.schedule.duration + p.fee_per_storage_byte * reg.storage
        + p.base_fee_per_execution
}

/// Whether the checked fee computation overflows.
pub open spec fn fee_overflows(reg: JobRegistration, p: PricingVariant) -> bool {
    fee_for_execution(reg, p) > u128::MAX
}

/// A job's whole reward budget: the per-slot-per-execution amount times
/// slots times executions.
pub open spec fn total_reward_for(reg: JobRegistration) -> int {
    reg.reward.amount * reg.slots * reg.schedule.execution_count_spec()
}

/// Whether the checked total-reward computation overflows.
pub open spec fn total_reward_overflows(reg: JobRegistration) -> bool {
    total_reward_for(reg) > u128::MAX
}

/// Why a provider's scheduling window would refuse a job ending at
/// `sched.end_time + delay`: an absolute deadline must reach that time, a
/// relative window must reach it from `now`.
pub open spec fn window_error(p: PricingVariant, sched: Schedule, delay: u64, now: u64)
    -> Option<Error>
{
    match p.scheduling_window {
        SchedulingWindow::End(end) => if sched.end_time + delay > u64::MAX {
            Some(Error::CalculationOverflow)
        } else if end < sched.end_time + delay {
            Some(Error::SchedulingWindowExceededInMatch)
        } else {
            None
        },
        SchedulingWindow::Delta(d) => if now + d > u64::MAX {
            Some(Error::CalculationOverflow)
        } else if sched.end_time + delay > u64::MAX {
            Some(Error::CalculationOverflow)
        } else if now + d < sched.end_time + delay {
            Some(Error::SchedulingWindowExceededInMatch)
        } else {
            None
        },
    }
}

/// Whether the provider's per-second network request quota covers the job:
/// `duration_ms * quota >= network_requests * 1000`, the products saturating
/// towards failure.
pub open spec fn quota_ok(reg: JobRegistration, ad: AdvertisementRestriction) -> bool {
    let lhs: int = if reg.schedule.duration * ad.network_request_quota > u64::MAX {
        0
    } else {
        reg.schedule.duration * ad.network_request_quota
    };
    let rhs: int = if reg.network_requests * 1000 > u64::MAX {
        u64::MAX as int
    } else {
        reg.network_requests * 1000
    };
    lhs >= rhs
}

/// Whether a provider is admitted by the job's whitelist (an absent
/// whitelist admits everyone).
pub open spec fn source_allowed(reg: JobRegistration, source: u64) -> bool {
    match reg.allowed_sources {
        Some(list) => list@.contains(source),
        None => true,
    }
}

/// Whether a consumer is admitted by the provider's whitelist (an absent
/// whitelist admits everyone).
pub open spec fn consumer_allowed(ad: AdvertisementRestriction, consumer: u64) -> bool {
    match ad.allowed_consumers {
        Some(list) => list@.contains(consumer),
        None => true,
    }
}

/// Whether a provider is admitted by the job's allowed-sources whitelist.
pub fn is_source_whitelisted(source: u64, reg: &JobRegistration) -> (r: bool)
    ensures
        r == source_allowed(*reg, source),
{
    match &reg.allowed_sources {
        Some(list) => crate::maps::contains_u64(list, source),
        None => true,
    }
}

/// Whether a consumer is admitted by a provider's allowed-consumers
/// whitelist.
pub fn is_consumer_whitelisted(consumer: u64, allowed_consumers: &Option<Vec<u64>>) -> (r: bool)
    ensures
        r == (match *allowed_consumers {
            Some(list) => list@.contains(consumer),
            None => true,
        }),
{
    match allowed_consumers {
        Some(list) => crate::maps::contains_u64(list, consumer),
        None => true,
    }
}

/// What checking one pair of schedules returns.
pub open spec fn fits_result(a: Schedule, da: u64, b: Schedule, db: u64) -> Result<(), Error> {
    if a.ranges_disjoint(b) {
        Ok(())
    } else if a.iter_overflows(da) || b.iter_overflows(db) {
        Err(Error::CalculationOverflow)
    } else if a.conflicts_with(da, b, db) {
        Err(Error::ScheduleOverlapInMatch)
    } else {
        Ok(())
    }
}

/// What checking a new plan against every assignment of one provider
/// returns: the first failure in store order, reading each assigned job's
/// schedule from the registry.
pub open spec fn fits_against(regs: Seq<(JobId, JobRegistration)>,
    asg: Seq<(AssignmentKey, Assignment)>, source: u64, sched: Schedule, delay: u64)
    -> Result<(), Error>
    decreases asg.len(),
{
    if asg.len() <= 0 {
        Ok(())
    } else if asg[0].0.0 == source {
        match alist_find(regs, asg[0].0.1) {
            None => Err(Error::JobRegistrationNotFound),
            Some(other) => match fits_result(sched, delay, other.schedule,
                asg[0].1.start_delay) {
                Err(e) => Err(e),
                Ok(_) => fits_against(regs, asg.drop_first(), source, sched, delay),
            },
        }
    } else {
        fits_against(regs, asg.drop_first(), source, sched, delay)
    }
}

/// What one admitted slot changes: the scratch assignment and capacity maps
/// and the fee accumulated for the job so far.
pub struct SlotState {
    pub asg: Seq<(AssignmentKey, Assignment)>,
    pub caps: Seq<(u64, i64)>,
    pub total_fee: u128,
}

/// What admitting one planned execution returns: the first failed check's
/// error, or the scratch state with the assignment recorded, the provider's
/// capacity reduced by the job's storage, and the slot's fee accumulated.
pub open spec fn slot_step(store: Marketplace, regs: Seq<(JobId, JobRegistration)>, job: JobId,
    reg: JobRegistration, now: u64, pe: PlannedExecution, slot: int, st: SlotState) -> Result<
    SlotState,
    Error,
> {
    let asset = reg.reward.asset;
    if reg.allow_only_verified_sources && !store.is_attested(pe.source) {
        Err(Error::UnverifiedSourceInMatch)
    } else {
        match store.advertisement(pe.source) {
            None => Err(Error::AdvertisementNotFound),
            Some(ad) => match store.pricing_of(pe.source, asset) {
                None => Err(Error::AdvertisementPricingNotFound),
                Some(pricing) => match window_error(pricing, reg.schedule, pe.start_delay,
                    now) {
                    Some(e) => Err(e),
                    None => if ad.max_memory < reg.memory {
                        Err(Error::MaxMemoryExceededInMatch)
                    } else if !quota_ok(reg, ad) {
                        Err(Error::NetworkRequestQuotaExceededInMatch)
                    } else {
                        match alist_find(st.caps, pe.source) {
                            None => Err(Error::CapacityNotFound),
                            Some(cap) => if cap <= 0 {
                                Err(Error::InsufficientStorageCapacityInMatch)
                            } else if !source_allowed(reg, pe.source) {
                                Err(Error::SourceNotAllowedInMatch)
                            } else if !consumer_allowed(ad, job.consumer) {
                                Err(Error::ConsumerNotAllowedInMatch)
                            } else {
                                match fits_against(regs, st.asg, pe.source, reg.schedule,
                                    pe.start_delay) {
                                    Err(e) => Err(e),
                                    Ok(_) => slot_fee_step(job, reg, pricing, pe, slot, st,
                                        cap),
                                }
                            },
                        }
                    },
                },
            },
        }
    }
}

/// The tail of [`slot_step`]: fee computation, reward check, duplicate
/// check, and the recording of the assignment.
pub open spec fn slot_fee_step(job: JobId, reg: JobRegistration, pricing: PricingVariant,
    pe: PlannedExecution, slot: int, st: SlotState, cap: i64) -> Result<SlotState, Error> {
    if fee_overflows(reg, pricing) {
        Err(Error::CalculationOverflow)
    } else {
        let fee = fee_for_execution(reg, pricing);
        if fee > reg.reward.amount {
            Err(Error::InsufficientRewardInMatch)
        } else {
            let count = reg.schedule.execution_count_spec();
            if fee * count > u128::MAX {
                Err(Error::CalculationOverflow)
            } else if st.total_fee + fee * count > u128::MAX {
                Err(Error::CalculationOverflow)
            } else if alist_find(st.asg, (pe.source, job)) is Some {
                Err(Error::DuplicateSourceInMatch)
            } else if cap - reg.storage < i64::MIN {
                Err(Error::CalculationOverflow)
            } else {
                Ok(SlotState {
                    asg: alist_upsert(
                        st.asg,
                        (pe.source, job),
                        (Assignment {
                            slot: slot as u8,
                            start_delay: pe.start_delay,
                            fee_per_execution: Reward {
                                asset: reg.reward.asset,
                                amount: fee as u128,
                            },
                            acknowledged: false,
                            sla: SLA { total: count as u64, met: 0 },
                        }),
                    ),
                    caps: alist_upsert(st.caps, pe.source, ((cap - reg.storage) as i64)),
                    total_fee: (st.total_fee + fee * count) as u128,
                })
            }
        }
    }
}

/// The slots of one job admitted in order, each against the scratch state
/// its predecessors left.
pub open spec fn slots_outcome(store: Marketplace, regs: Seq<(JobId, JobRegistration)>,
    job: JobId, reg: JobRegistration, now: u64, sources: Seq<PlannedExecution>, slot: int,
    st: SlotState) -> Result<SlotState, Error>
    decreases sources.len(),
{
    if sources.len() <= 0 {
        Ok(st)
    } else {
        match slot_step(store, regs, job, reg, now, sources[0], slot, st) {
            Err(e) => Err(e),
            Ok(st2) => slots_outcome(store, regs, job, reg, now, sources.drop_first(), slot + 1,
                st2),
        }
    }
}

/// What one whole proposed matching changes: the scratch maps and the
/// accumulated remaining reward, single-asset across the call.
pub struct MatchProgress {
    pub asg: Seq<(AssignmentKey, Assignment)>,
    pub caps: Seq<(u64, i64)>,
    pub stats: Seq<(JobId, JobStatus)>,
    pub remaining: Option<(u64, u128)>,
}

/// What admitting one match returns: the first failed check's error, or the
/// progressed state with every slot assigned, the job marked matched, and
/// the job's unspent reward added to the running remainder.
pub open spec fn match_outcome(store: Marketplace, regs: Seq<(JobId, JobRegistration)>,
    m: Match, now: u64, st: MatchProgress) -> Result<MatchProgress, Error> {
    match alist_find(regs, m.job_id) {
        None => Err(Error::JobRegistrationNotFound),
        Some(reg) => if now >= reg.schedule.start_time {
            Err(Error::OverdueMatch)
        } else if m.sources@.len() != reg.slots {
            Err(Error::IncorrectSourceCountInMatch)
        } else if !store.is_valid_asset(reg.reward.asset) {
            Err(Error::InvalidAssetId)
        } else {
            match slots_outcome(store, regs, m.job_id, reg, now, m.sources@, 0,
                (SlotState { asg: st.asg, caps: st.caps, total_fee: 0 })) {
                Err(e) => Err(e),
                Ok(s2) => if total_reward_overflows(reg) {
                    Err(Error::CalculationOverflow)
                } else if total_reward_for(reg) < s2.total_fee {
                    Err(Error::InsufficientRewardInMatch)
                } else {
                    let diff = total_reward_for(reg) - s2.total_fee;
                    match st.remaining {
                        Some((a0, r0)) => if a0 != reg.reward.asset {
                            Err(Error::MultipleRewardAssetsInMatch)
                        } else if r0 + diff > u128::MAX {
                            Err(Error::CalculationOverflow)
                        } else {
                            Ok(MatchProgress {
                                asg: s2.asg,
                                caps: s2.caps,
                                stats: alist_upsert(st.stats, m.job_id, JobStatus::Matched),
                                remaining: Some((a0, ((r0 + diff) as u128))),
                            })
                        },
                        None => Ok(MatchProgress {
                            asg: s2.asg,
                            caps: s2.caps,
                            stats: alist_upsert(st.stats, m.job_id, JobStatus::Matched),
                            remaining: Some((reg.reward.asset, (diff as u128))),
                        }),
                    }
                },
            }
        },
    }
}

/// The matches of one call admitted in order, each against the scratch
/// state its predecessors left.
pub open spec fn matches_outcome(store: Marketplace, regs: Seq<(JobId, JobRegistration)>,
    ms: Seq<Match>, now: u64, st: MatchProgress) -> Result<MatchProgress, Error>
    decreases ms.len(),
{
    if ms.len() <= 0 {
        Ok(st)
    } else {
        match match_outcome(store, regs, ms[0], now, st) {
            Err(e) => Err(e),
            Ok(st2) => matches_outcome(store, regs, ms.drop_first(), now, st2),
        }
    }
}

/// The fees reserved for a job's slots: for each planned execution, the
/// provider's fee per execution times the execution count, the pricing read
/// from the store.
pub open spec fn fees_sum(store: Marketplace, reg: JobRegistration,
    sources: Seq<PlannedExecution>) -> int
    decreases sources.len(),
{
    if sources.len() <= 0 {
        0
    } else {
        fee_for_execution(reg, store.pricing_of(sources[0].source, reg.reward.asset).unwrap())
            * reg.schedule.execution_count_spec() + fees_sum(store, reg, sources.drop_first())
    }
}

/// The total rewards of the matched jobs, in match order.
pub open spec fn matches_rewards_sum(regs: Seq<(JobId, JobRegistration)>, ms: Seq<Match>)
    -> int
    decreases ms.len(),
{
    if ms.len() <= 0 {
        0
    } else {
        total_reward_for(alist_find(regs, ms[0].job_id).unwrap()) + matches_rewards_sum(regs,
            ms.drop_first())
    }
}

/// The fees reserved across all matches, in match order.
pub open spec fn matches_fees_sum(store: Marketplace, regs: Seq<(JobId, JobRegistration)>,
    ms: Seq<Match>) -> int
    decreases ms.len(),
{
    if ms.len() <= 0 {
        0
    } else {
        fees_sum(store, alist_find(regs, ms[0].job_id).unwrap(), ms[0].sources@)
            + matches_fees_sum(store, regs, ms.drop_first())
    }
}

/// Admitted slots accumulate exactly the fees of their planned executions.
pub proof fn lemma_slots_fee_sum(store: Marketplace, regs: Seq<(JobId, JobRegistration)>,
    job: JobId, reg: JobRegistration, now: u64, sources: Seq<PlannedExecution>, slot: int,
    st: SlotState)
    requires
        slots_outcome(store, regs, job, reg, now, sources, slot, st) is Ok,
    ensures
        slots_outcome(store, regs, job, reg, now, sources, slot, st).unwrap().total_fee
            == st.total_fee + fees_sum(store, reg, sources),
    decreases sources.len(),
{
    if sources.len() > 0 {
        match slot_step(store, regs, job, reg, now, sources[0], slot, st) {
            Err(_) => {},
            Ok(st2) => {
                lemma_slots_fee_sum(store, regs, job, reg, now, sources.drop_first(), slot + 1,
                    st2);
            },
        }
    }
}

/// One successfully matched job adds to the running remainder exactly its
/// total reward less the fees its slots reserved.
pub proof fn lemma_match_conserves_reward(store: Marketplace,
    regs: Seq<(JobId, JobRegistration)>, m: Match, now: u64, st: MatchProgress)
    requires
        match_outcome(store, regs, m, now, st) is Ok,
    ensures
        ({
            let reg = alist_find(regs, m.job_id).unwrap();
            let rem_before: int = match st.remaining {
                Some((_, r0)) => r0 as int,
                None => 0,
            };
            let rem_after: int = match match_outcome(store, regs, m, now,
                st).unwrap().remaining {
                Some((_, r1)) => r1 as int,
                None => 0,
            };
            rem_after - rem_before + fees_sum(store, reg, m.sources@) == total_reward_for(reg)
        }),
{
    let reg = alist_find(regs, m.job_id).unwrap();
    lemma_slots_fee_sum(store, regs, m.job_id, reg, now, m.sources@, 0,
        (SlotState { asg: st.asg, caps: st.caps, total_fee: 0 }));
}

/// Law (conservation): a successful matching's final remainder equals the
/// initial one plus the matched jobs' total rewards less their reserved
/// fees.
pub proof fn lemma_matches_conserve_reward(store: Marketplace,
    regs: Seq<(JobId, JobRegistration)>, ms: Seq<Match>, now: u64, st: MatchProgress)
    requires
        matches_outcome(store, regs, ms, now, st) is Ok,
    ensures
        ({
            let rem_before: int = match st.remaining {
                Some((_, r0)) => r0 as int,
                None => 0,
            };
            let rem_after: int = match matches_outcome(store, regs, ms, now,
                st).unwrap().remaining {
                Some((_, r1)) => r1 as int,
                None => 0,
            };
            rem_after == rem_before + matches_rewards_sum(regs, ms) - matches_fees_sum(store,
                regs, ms)
        }),
    decreases ms.len(),
{
    if ms.len() > 0 {
        match match_outcome(store, regs, ms[0], now, st) {
            Err(_) => {},
            Ok(st2) => {
                lemma_match_conserves_reward(store, regs, ms[0], now, st);
                lemma_matches_conserve_reward(store, regs, ms.drop_first(), now, st2);
            },
        }
    }
}

/// Admission reads the store only through its advertisements, pricing,
/// attestation and asset policy: two stores agreeing there admit alike.
pub proof fn lemma_slots_outcome_store_agnostic(s1: Marketplace, s2: Marketplace,
    regs: Seq<(JobId, JobRegistration)>, job: JobId, reg: JobRegistration, now: u64,
    sources: Seq<PlannedExecution>, slot: int, st: SlotState)
    requires
        s1.advertisements@ == s2.advertisements@,
        s1.pricing@ == s2.pricing@,
        s1.attested@ == s2.attested@,
        s1.valid_assets@ == s2.valid_assets@,
    ensures
        slots_outcome(s1, regs, job, reg, now, sources, slot, st) == slots_outcome(s2, regs,
            job, reg, now, sources, slot, st),
    decreases sources.len(),
{
    if sources.len() > 0 {
        assert(slot_step(s1, regs, job, reg, now, sources[0], slot, st) == slot_step(s2, regs,
            job, reg, now, sources[0], slot, st));
        match slot_step(s1, regs, job, reg, now, sources[0], slot, st) {
            Err(_) => {},
            Ok(st2) => {
                lemma_slots_outcome_store_agnostic(s1, s2, regs, job, reg, now,
                    sources.drop_first(), slot + 1, st2);
            },
        }
    }
}

/// As [`lemma_slots_outcome_store_agnostic`], for one whole match.
pub proof fn lemma_match_outcome_store_agnostic(s1: Marketplace, s2: Marketplace,
    regs: Seq<(JobId, JobRegistration)>, m: Match, now: u64, st: MatchProgress)
    requires
        s1.advertisements@ == s2.advertisements@,
        s1.pricing@ == s2.pricing@,
        s1.attested@ == s2.attested@,
        s1.valid_assets@ == s2.valid_assets@,
    ensures
        match_outcome(s1, regs, m, now, st) == match_outcome(s2, regs, m, now, st),
{
    match alist_find(regs, m.job_id) {
        None => {},
        Some(reg) => {
            lemma_slots_outcome_store_agnostic(s1, s2, regs, m.job_id, reg, now, m.sources@, 0,
                (SlotState { asg: st.asg, caps: st.caps, total_fee: 0 }));
        },
    }
}

/// Law (conservation): after a successful matching, the remaining reward
/// owed to the matcher plus the fees reserved for every slot equal the sum
/// of the matched jobs' total rewards.
pub proof fn lemma_propose_conserves_reward(store: Marketplace, matches: Seq<Match>, now: u64)
    requires
        store.propose_outcome(matches, now) is Ok,
    ensures
        store.propose_outcome(matches, now).unwrap().0.amount + matches_fees_sum(store,
            store.registrations@, matches) == matches_rewards_sum(store.registrations@,
            matches),
{
    lemma_matches_conserve_reward(
        store,
        store.registrations@,
        matches,
        now,
        (MatchProgress {
            asg: store.assignments@,
            caps: store.capacities@,
            stats: store.statuses@,
            remaining: None,
        }),
    );
}

/// Every schedule has at least one execution.
pub proof fn lemma_count_at_least_one(s: Schedule)
    ensures
        s.execution_count_spec() >= 1,
{
    if s.interval != 0 {
        let diff: int = if s.end_time > s.start_time {
            s.end_time - s.start_time - 1
        } else {
            0
        };
        lemma_div_pos_is_pos(diff, s.interval as int);
    }
}

impl Marketplace {
    /// The fee one execution of the job costs under the given pricing; fails
    /// with [`Error::CalculationOverflow`] exactly when the checked products
    /// and sums exceed the numeric range.
    pub fn fee_per_execution(reg: &JobRegistration, pricing: &PricingVariant) -> (r: Result<
        u128,
        Error,
    >)
        ensures
            fee_overflows(*reg, *pricing) ==> r == Err::<u128, Error>(Error::CalculationOverflow),
            !fee_overflows(*reg, *pricing) ==> r == Ok::<u128, Error>(
                fee_for_execution(*reg, *pricing) as u128,
            ),
    {
        proof {
            assert(pricing.fee_per_millisecond * reg.schedule.duration >= 0) by (nonlinear_arith);
            assert(pricing.fee_per_storage_byte * reg.storage >= 0) by (nonlinear_arith);
        }
        let m1 = match pricing.fee_per_millisecond.checked_mul(reg.schedule.duration as u128) {
            Some(x) => x,
            None => {
                return Err(Error::CalculationOverflow);
            },
        };
        let m2 = match pricing.fee_per_storage_byte.checked_mul(reg.storage as u128) {
            Some(x) => x,
            None => {
                return Err(Error::CalculationOverflow);
            },
        };
        let s1 = match m1.checked_add(m2) {
            Some(x) => x,
            None => {
                return Err(Error::CalculationOverflow);
            },
        };
        match s1.checked_add(pricing.base_fee_per_execution) {
            Some(x) => Ok(x),
            None => Err(Error::CalculationOverflow),
        }
    }

    /// The job's whole reward budget; fails with
    /// [`Error::CalculationOverflow`] exactly when the checked products
    /// exceed the numeric range.
    pub fn total_reward_amount(reg: &JobRegistration) -> (r: Result<u128, Error>)
        ensures
            total_reward_overflows(*reg) ==> r == Err::<u128, Error>(Error::CalculationOverflow),
            !total_reward_overflows(*reg) ==> r == Ok::<u128, Error>(
                total_reward_for(*reg) as u128,
            ),
    {
        let count = reg.schedule.execution_count();
        proof {
            lemma_count_at_least_one(reg.schedule);
            assert(reg.reward.amount * reg.slots >= 0) by (nonlinear_arith);
            assert(reg.reward.amount * reg.slots * reg.schedule.execution_count_spec()
                >= reg.reward.amount * reg.slots * 1) by (nonlinear_arith)
                requires
                    reg.schedule.execution_count_spec() >= 1,
                    reg.reward.amount * reg.slots >= 0,
            {}
        }
        let m1 = match reg.reward.amount.checked_mul(reg.slots as u128) {
            Some(x) => x,
            None => {
                return Err(Error::CalculationOverflow);
            },
        };
        match m1.checked_mul(count as u128) {
            Some(x) => Ok(x),
            None => Err(Error::CalculationOverflow),
        }
    }

    /// Checks a new plan against every assignment the provider already
    /// holds, in store order, reading each assigned job's schedule from the
    /// registry.
    fn fits_schedule(&self, asg: &Vec<(AssignmentKey, Assignment)>, source: u64,
        sched: &Schedule, delay: u64) -> (r: Result<(), Error>)
        requires
            self.wf(),
            sched.wf(),
        ensures
            r == fits_against(self.registrations@, asg@, source, *sched, delay),
    {
        let mut i: usize = 0;
        proof {
            assert(asg@.skip(0) =~= asg@);
        }
        while i < asg.len()
            invariant
                self.wf(),
                sched.wf(),
                i <= asg@.len(),
                fits_against(self.registrations@, asg@, source, *sched, delay) == fits_against(
                    self.registrations@, asg@.skip(i as int), source, *sched, delay),
            decreases asg@.len() - i,
        {
            let ghost suffix = asg@.skip(i as int);
            proof {
                assert(suffix[0] == asg@[i as int]);
                assert(suffix.drop_first() =~= asg@.skip(i as int + 1));
            }
            if asg[i].0.0 == source {
                let other_id = asg[i].0.1;
                let ri = match crate::maps::regs_index(&self.registrations, other_id) {
                    Some(x) => x,
                    None => {
                        return Err(Error::JobRegistrationNotFound);
                    },
                };
                proof {
                    // stored registrations carry well-formed schedules
                    assert(alist_find(self.registrations@, other_id) matches Some(r)
                        ==> r.schedule.wf());
                }
                let res = sched.fits(
                    delay,
                    &self.registrations[ri].1.schedule,
                    asg[i].1.start_delay,
                );
                match res {
                    Err(e) => {
                        return Err(e);
                    },
                    Ok(_) => {},
                }
            }
            i = i + 1;
        }
        proof {
            assert(asg@.skip(asg@.len() as int) =~= Seq::<(AssignmentKey, Assignment)>::empty());
        }
        Ok(())
    }

    /// Admits one planned execution of one job, mutating the scratch maps.
    fn admit_slot(&self, job: JobId, reg: &JobRegistration, now: u64, pe: PlannedExecution,
        slot: u8, asg: &mut Vec<(AssignmentKey, Assignment)>, caps: &mut Vec<(u64, i64)>,
        total_fee: u128) -> (r: Result<u128, Error>)
        requires
            self.wf(),
            reg.schedule.wf(),
            alist_unique(old(asg)@),
            alist_unique(old(caps)@),
        ensures
            alist_unique(final(asg)@),
            alist_unique(final(caps)@),
            sla_bounded(old(asg)@) ==> sla_bounded(final(asg)@),
            match slot_step(*self, self.registrations@, job, *reg, now, pe, slot as int,
                (SlotState { asg: old(asg)@, caps: old(caps)@, total_fee })) {
                Ok(st) => r == Ok::<u128, Error>(st.total_fee) && final(asg)@ == st.asg
                    && final(caps)@ == st.caps,
                Err(e) => r == Err::<u128, Error>(e) && final(asg)@ == old(asg)@ && final(caps)@
                    == old(caps)@,
            },
    {
        if reg.allow_only_verified_sources && !crate::maps::contains_u64(&self.attested,
            pe.source) {
            return Err(Error::UnverifiedSourceInMatch);
        }
        let ai = match crate::maps::ads_index(&self.advertisements, pe.source) {
            Some(i) => i,
            None => {
                return Err(Error::AdvertisementNotFound);
            },
        };
        let pricing = match crate::maps::pricing_find(&self.pricing, pe.source,
            reg.reward.asset) {
            Some(p) => p,
            None => {
                return Err(Error::AdvertisementPricingNotFound);
            },
        };
        match pricing.scheduling_window {
            SchedulingWindow::End(end) => {
                let t = match reg.schedule.end_time.checked_add(pe.start_delay) {
                    Some(t) => t,
                    None => {
                        return Err(Error::CalculationOverflow);
                    },
                };
                if end < t {
                    return Err(Error::SchedulingWindowExceededInMatch);
                }
            },
            SchedulingWindow::Delta(d) => {
                let lhs = match now.checked_add(d) {
                    Some(x) => x,
                    None => {
                        return Err(Error::CalculationOverflow);
                    },
                };
                let t = match reg.schedule.end_time.checked_add(pe.start_delay) {
                    Some(t) => t,
                    None => {
                        return Err(Error::CalculationOverflow);
                    },
                };
                if lhs < t {
                    return Err(Error::SchedulingWindowExceededInMatch);
                }
            },
        }
        if self.advertisements[ai].1.max_memory < reg.memory {
            return Err(Error::MaxMemoryExceededInMatch);
        }
        let lhs = match reg.schedule.duration.checked_mul(
            self.advertisements[ai].1.network_request_quota as u64) {
            Some(x) => x,
            None => 0,
        };
        let rhs = match reg.network_requests.checked_mul(1000) {
            Some(x) => x,
            None => u64::MAX,
        };
        if lhs < rhs {
            return Err(Error::NetworkRequestQuotaExceededInMatch);
        }
        let cap = match crate::maps::caps_find(caps, pe.source) {
            Some(c) => c,
            None => {
                return Err(Error::CapacityNotFound);
            },
        };
        if cap <= 0 {
            return Err(Error::InsufficientStorageCapacityInMatch);
        }
        if !is_source_whitelisted(pe.source, reg) {
            return Err(Error::SourceNotAllowedInMatch);
        }
        if !is_consumer_whitelisted(job.consumer, &self.advertisements[ai].1.allowed_consumers)
        {
            return Err(Error::ConsumerNotAllowedInMatch);
        }
        match self.fits_schedule(asg, pe.source, &reg.schedule, pe.start_delay) {
            Err(e) => {
                return Err(e);
            },
            Ok(_) => {},
        }
        let fee = match Marketplace::fee_per_execution(reg, &pricing) {
            Ok(f) => f,
            Err(e) => {
                return Err(e);
            },
        };
        if fee > reg.reward.amount {
            return Err(Error::InsufficientRewardInMatch);
        }
        let count = reg.schedule.execution_count();
        let fc = match fee.checked_mul(count as u128) {
            Some(x) => x,
            None => {
                return Err(Error::CalculationOverflow);
            },
        };
        let new_total = match total_fee.checked_add(fc) {
            Some(x) => x,
            None => {
                return Err(Error::CalculationOverflow);
            },
        };
        match crate::maps::asg_find(asg, pe.source, job) {
            Some(_) => {
                return Err(Error::DuplicateSourceInMatch);
            },
            None => {},
        }
        let new_cap = match cap.checked_sub(reg.storage as i64) {
            Some(x) => x,
            None => {
                return Err(Error::CalculationOverflow);
            },
        };
        crate::maps::asg_upsert(
            asg,
            pe.source,
            job,
            Assignment {
                slot,
                start_delay: pe.start_delay,
                fee_per_execution: Reward { asset: reg.reward.asset, amount: fee },
                acknowledged: false,
                sla: SLA { total: count, met: 0 },
            },
        );
        crate::maps::caps_upsert(caps, pe.source, new_cap);
        proof {
            if sla_bounded(old(asg)@) {
                assert(sla_bounded(asg@));
            }
        }
        Ok(new_total)
    }

    /// Admits one match, slot by slot, mutating the scratch maps; returns
    /// the updated running remainder.
    pub(crate) fn admit_match(&self, m: &Match, now: u64, asg: &mut Vec<(AssignmentKey, Assignment)>,
        caps: &mut Vec<(u64, i64)>, stats: &mut Vec<(JobId, JobStatus)>,
        remaining: Option<(u64, u128)>) -> (r: Result<Option<(u64, u128)>, Error>)
        requires
            self.wf(),
            alist_unique(old(asg)@),
            alist_unique(old(caps)@),
            alist_unique(old(stats)@),
        ensures
            alist_unique(final(asg)@),
            alist_unique(final(caps)@),
            alist_unique(final(stats)@),
            sla_bounded(old(asg)@) ==> sla_bounded(final(asg)@),
            match match_outcome(*self, self.registrations@, *m, now,
                (MatchProgress { asg: old(asg)@, caps: old(caps)@, stats: old(stats)@,
                    remaining })) {
                Ok(st) => r == Ok::<Option<(u64, u128)>, Error>(st.remaining) && final(asg)@
                    == st.asg && final(caps)@ == st.caps && final(stats)@ == st.stats,
                Err(e) => r == Err::<Option<(u64, u128)>, Error>(e),
            },
    {
        let id = m.job_id;
        let ri = match crate::maps::regs_index(&self.registrations, id) {
            Some(i) => i,
            None => {
                return Err(Error::JobRegistrationNotFound);
            },
        };
        let reg = &self.registrations[ri].1;
        let ghost big_reg = self.registrations@[ri as int].1;
        if now >= reg.schedule.start_time {
            return Err(Error::OverdueMatch);
        }
        if m.sources.len() != reg.slots as usize {
            return Err(Error::IncorrectSourceCountInMatch);
        }
        if !crate::maps::contains_u64(&self.valid_assets, reg.reward.asset) {
            return Err(Error::InvalidAssetId);
        }
        let mut total_fee: u128 = 0;
        let mut si: usize = 0;
        let ghost st0 = SlotState { asg: asg@, caps: caps@, total_fee: 0 };
        proof {
            assert(m.sources@.skip(0) =~= m.sources@);
        }
        while si < m.sources.len()
            invariant
                self.wf(),
                si <= m.sources@.len(),
                alist_unique(asg@),
                alist_unique(caps@),
                alist_unique(stats@),
                sla_bounded(old(asg)@) ==> sla_bounded(asg@),
                stats@ == old(stats)@,
                big_reg == self.registrations@[ri as int].1,
                *reg == big_reg,
                id == m.job_id,
                ri < self.registrations@.len(),
                alist_find(self.registrations@, m.job_id) == Some(big_reg),
                big_reg.schedule.wf(),
                m.sources@.len() == big_reg.slots,
                now < big_reg.schedule.start_time,
                self.is_valid_asset(big_reg.reward.asset),
                st0 == (SlotState { asg: old(asg)@, caps: old(caps)@, total_fee: 0 }),
                slots_outcome(*self, self.registrations@, m.job_id, big_reg, now,
                    m.sources@.skip(si as int), si as int,
                    (SlotState { asg: asg@, caps: caps@, total_fee })) == slots_outcome(
                    *self, self.registrations@, m.job_id, big_reg, now, m.sources@, 0, st0),
            decreases m.sources@.len() - si,
        {
            let pe = m.sources[si];
            let ghost pre = SlotState { asg: asg@, caps: caps@, total_fee };
            proof {
                assert(m.sources@.skip(si as int)[0] == m.sources@[si as int]);
                assert(m.sources@.skip(si as int).drop_first() =~= m.sources@.skip(
                    si as int + 1));
                assert(slots_outcome(*self, self.registrations@, m.job_id, big_reg, now,
                    m.sources@.skip(si as int), si as int, pre) == (match slot_step(
                    *self, self.registrations@, m.job_id, big_reg, now, pe, si as int, pre) {
                    Err(e) => Err(e),
                    Ok(st2) => slots_outcome(*self, self.registrations@, m.job_id, big_reg,
                        now, m.sources@.skip(si as int + 1), si as int + 1, st2),
                }));
            }
            let step = self.admit_slot(id, reg, now, pe, si as u8, asg, caps, total_fee);
            match step {
                Err(e) => {
                    return Err(e);
                },
                Ok(nt) => {
                    total_fee = nt;
                },
            }
            si = si + 1;
        }
        proof {
            assert(m.sources@.skip(m.sources@.len() as int)
                =~= Seq::<PlannedExecution>::empty());
        }
        let total_reward = match Marketplace::total_reward_amount(reg) {
            Ok(t) => t,
            Err(e) => {
                return Err(e);
            },
        };
        let diff = match total_reward.checked_sub(total_fee) {
            Some(d) => d,
            None => {
                return Err(Error::InsufficientRewardInMatch);
            },
        };
        let new_remaining = match remaining {
            Some((a0, r0)) => {
                if a0 != reg.reward.asset {
                    return Err(Error::MultipleRewardAssetsInMatch);
                }
                let nr = match r0.checked_add(diff) {
                    Some(x) => x,
                    None => {
                        return Err(Error::CalculationOverflow);
                    },
                };
                Some((a0, nr))
            },
            None => Some((reg.reward.asset, diff)),
        };
        crate::maps::status_upsert(stats, id, JobStatus::Matched);
        Ok(new_remaining)
    }

    /// What one whole proposed matching returns: the remaining reward owed
    /// to the matcher and the state every map ends in, or the first error.
    pub open spec fn propose_outcome(self, matches: Seq<Match>, now: u64) -> Result<
        (Reward, MatchProgress),
        Error,
    > {
        match matches_outcome(self, self.registrations@, matches, now,
            (MatchProgress { asg: self.assignments@, caps: self.capacities@,
                stats: self.statuses@, remaining: None })) {
            Err(e) => Err(e),
            Ok(st) => match st.remaining {
                None => Err(Error::EmptyMatching),
                Some((a, amt)) => Ok(((Reward { asset: a, amount: amt }), st)),
            },
        }
    }

    /// Admits a whole proposed matching: every match, slot by slot, against
    /// the state its predecessors in the same call left. On success every
    /// assignment is committed, every touched provider's capacity reduced,
    /// every matched job's status set, and the unspent reward returned: the
    /// caller owes it to the matcher as the final, non-revertible step. Any
    /// failure leaves the store untouched.
    pub fn propose_matching(&mut self, matches: &Vec<Match>, now: u64) -> (r: Result<
        Reward,
        Error,
    >)
        requires
            old(self).wf(),
        ensures
            final(self).wf(),
            r == (match old(self).propose_outcome(matches@, now) {
                Ok(p) => Ok::<Reward, Error>(p.0),
                Err(e) => Err::<Reward, Error>(e),
            }),
            r is Err ==> *final(self) == *old(self),
            old(self).propose_outcome(matches@, now) matches Ok(p) ==> ({
                &&& final(self).assignments@ == p.1.asg
                &&& final(self).capacities@ == p.1.caps
                &&& final(self).statuses@ == p.1.stats
            }),
            final(self).registrations_seq() == old(self).registrations_seq(),
            final(self).advertisements_seq() == old(self).advertisements_seq(),
            final(self).pricing_seq() == old(self).pricing_seq(),
            final(self).attested_seq() == old(self).attested_seq(),
            final(self).valid_assets_seq() == old(self).valid_assets_seq(),
            final(self).tolerance() == old(self).tolerance(),
    {
        let mut asg = crate::maps::copy_asg(&self.assignments);
        let mut caps = crate::maps::copy_caps(&self.capacities);
        let mut stats = crate::maps::copy_stats(&self.statuses);
        let mut remaining: Option<(u64, u128)> = None;
        let ghost start_progress = MatchProgress { asg: asg@, caps: caps@, stats: stats@, remaining: None };
        let mut mi: usize = 0;
        proof {
            assert(matches@.skip(0) =~= matches@);
        }
        while mi < matches.len()
            invariant
                *self == *old(self),
                old(self).wf(),
                mi <= matches@.len(),
                alist_unique(asg@),
                alist_unique(caps@),
                alist_unique(stats@),
                sla_bounded(asg@),
                start_progress == (MatchProgress { asg: old(self).assignments@, caps: old(
                    self,
                ).capacities@, stats: old(self).statuses@, remaining: None::<(u64, u128)> }),
                matches_outcome(*self, self.registrations@, matches@.skip(mi as int), now,
                    (MatchProgress { asg: asg@, caps: caps@, stats: stats@, remaining }))
                    == matches_outcome(*self, self.registrations@, matches@, now, start_progress),
            decreases matches@.len() - mi,
        {
            proof {
                assert(matches@.skip(mi as int)[0] == matches@[mi as int]);
                assert(matches@.skip(mi as int).drop_first() =~= matches@.skip(mi as int + 1));
            }
            let step = self.admit_match(&matches[mi], now, &mut asg, &mut caps, &mut stats,
                remaining);
            match step {
                Err(e) => {
                    return Err(e);
                },
                Ok(nr) => {
                    remaining = nr;
                },
            }
            mi = mi + 1;
        }
        proof {
            assert(matches@.skip(matches@.len() as int) =~= Seq::<Match>::empty());
        }
        match remaining {
            None => Err(Error::EmptyMatching),
            Some((a, amt)) => {
                self.assignments = asg;
                self.capacities = caps;
                self.statuses = stats;
                Ok(Reward { asset: a, amount: amt })
            },
        }
    }
}

} // verus!
