//! The assignment state machine: a matched job is acknowledged by its
//! provider, reported execution by execution, and removed by the final
//! report; jobs still open can be deregistered.

use vstd::prelude::*;
use crate::alist::{
    alist_find, alist_unique, alist_upsert, lemma_alist_find_none, lemma_alist_find_upsert,
    lemma_alist_upsert_is_push, lemma_alist_upsert_is_update, lemma_alist_upsert_unique,
};
use crate::maps::{
    asg_find, asg_remove, asg_upsert, caps_find, caps_upsert, contains_u64, copy_asg,
    copy_caps, copy_stats, regs_index, regs_remove, status_find, status_remove, status_upsert,
};
use crate::matching::{
    lemma_match_outcome_store_agnostic, match_outcome, total_reward_for,
    total_reward_overflows, MatchProgress,
};
use crate::store::{stores_equal, Marketplace};
use crate::types::{
    opt_vec_view, AllowedSourcesUpdate, Assignment, Error, ExecutionResult, JobId,
    JobRegistration, JobStatus, ListUpdateOperation, Match, PlannedExecution, Reward, SLA,
    MAX_ALLOWED_SOURCES, MAX_EXECUTIONS_PER_JOB,
};

verus! {

/// The reward a registering consumer must lock: the job's whole budget.
pub open spec fn reward_to_lock(reg: JobRegistration) -> Result<Reward, Error> {
    if total_reward_overflows(reg) {
        Err(Error::CalculationOverflow)
    } else {
        Ok(Reward { asset: reg.reward.asset, amount: total_reward_for(reg) as u128 })
    }
}

/// A whitelist without the first occurrence of `x`, if there is one.
pub open spec fn remove_first(s: Seq<u64>, x: u64) -> Seq<u64>
    decreases s.len(),
{
    if s.len() <= 0 {
        s
    } else if s[0] == x {
        s.drop_first()
    } else {
        seq![s[0]] + remove_first(s.drop_first(), x)
    }
}

/// One whitelist update applied: an addition only if the entry is absent, a
/// removal only of the first occurrence.
pub open spec fn apply_update(cur: Seq<u64>, u: AllowedSourcesUpdate) -> Seq<u64> {
    match u.operation {
        ListUpdateOperation::Add => if cur.contains(u.item) {
            cur
        } else {
            cur.push(u.item)
        },
        ListUpdateOperation::Remove => remove_first(cur, u.item),
    }
}

/// A sequence of whitelist updates applied in order.
pub open spec fn apply_updates(cur: Seq<u64>, ups: Seq<AllowedSourcesUpdate>) -> Seq<u64>
    decreases ups.len(),
{
    if ups.len() <= 0 {
        cur
    } else {
        apply_updates(apply_update(cur, ups[0]), ups.drop_first())
    }
}

proof fn lemma_apply_updates_snoc(cur: Seq<u64>, ups: Seq<AllowedSourcesUpdate>,
    e: AllowedSourcesUpdate)
    ensures
        apply_updates(cur, ups.push(e)) == apply_update(apply_updates(cur, ups), e),
    decreases ups.len(),
{
    if ups.len() == 0 {
        assert(ups.push(e)[0] == e);
        assert(ups.push(e).drop_first() =~= Seq::<AllowedSourcesUpdate>::empty());
        assert(apply_updates(cur, ups) == cur);
        assert(apply_updates(apply_update(cur, e), ups.push(e).drop_first()) == apply_update(
            cur, e));
    } else {
        assert(ups.push(e)[0] == ups[0]);
        assert(ups.push(e).drop_first() =~= ups.drop_first().push(e));
        lemma_apply_updates_snoc(apply_update(cur, ups[0]), ups.drop_first(), e);
    }
}

proof fn lemma_remove_first_at(s: Seq<u64>, i: int, x: u64)
    requires
        0 <= i < s.len(),
        s[i] == x,
        forall|j: int| 0 <= j < i ==> s[j] != x,
    ensures
        remove_first(s, x) == s.remove(i),
    decreases i,
{
    if i == 0 {
        assert(s.drop_first() =~= s.remove(0));
    } else {
        assert forall|j: int| 0 <= j < i - 1 implies s.drop_first()[j] != x by {
            assert(s.drop_first()[j] == s[j + 1]);
        }
        assert(s.drop_first()[i - 1] == s[i]);
        lemma_remove_first_at(s.drop_first(), i - 1, x);
        assert(seq![s[0]] + s.drop_first().remove(i - 1) =~= s.remove(i));
    }
}

proof fn lemma_remove_first_absent(s: Seq<u64>, x: u64)
    requires
        !s.contains(x),
    ensures
        remove_first(s, x) == s,
    decreases s.len(),
{
    if s.len() > 0 {
        assert(s[0] != x);
        assert(!s.drop_first().contains(x)) by {
            if s.drop_first().contains(x) {
                let j = choose|j: int|
                    0 <= j < s.drop_first().len() && s.drop_first()[j] == x;
                assert(s[j + 1] == x);
            }
        }
        lemma_remove_first_absent(s.drop_first(), x);
        assert(seq![s[0]] + s.drop_first() =~= s);
    }
}

/// Two registrations that agree on everything but the whitelist.
pub open spec fn same_registration_but_allowed(a: JobRegistration, b: JobRegistration) -> bool {
    &&& a.schedule == b.schedule
    &&& a.slots == b.slots
    &&& a.memory == b.memory
    &&& a.storage == b.storage
    &&& a.network_requests == b.network_requests
    &&& a.reward == b.reward
    &&& a.allow_only_verified_sources == b.allow_only_verified_sources
}

/// The status a job advances to when one more provider acknowledges.
pub open spec fn status_after_acknowledge(s: JobStatus) -> JobStatus {
    match s {
        JobStatus::Open => JobStatus::Open,
        JobStatus::Matched => JobStatus::Assigned(1),
        JobStatus::Assigned(n) => JobStatus::Assigned((n + 1) as u8),
    }
}

/// An assignment with one more met execution.
pub open spec fn assignment_after_report(a: Assignment) -> Assignment {
    Assignment {
        sla: SLA { total: a.sla.total, met: (a.sla.met + 1) as u64 },
        ..a
    }
}

impl Marketplace {
    /// What acknowledging would return, and on which input each error comes.
    pub open spec fn acknowledge_outcome(self, provider: u64, id: JobId) -> Result<(), Error> {
        match self.assignment(provider, id) {
            None => Err(Error::CannotAcknowledgeWhenNotMatched),
            Some(a) => if a.acknowledged {
                Ok(())
            } else {
                match self.status(id) {
                    None => Err(Error::JobStatusNotFound),
                    Some(JobStatus::Open) => Err(Error::CannotAcknowledgeWhenNotMatched),
                    Some(JobStatus::Matched) => Ok(()),
                    Some(JobStatus::Assigned(n)) => if n == u8::MAX {
                        Err(Error::CalculationOverflow)
                    } else {
                        Ok(())
                    },
                }
            },
        }
    }

    /// Acknowledges a job matched to the calling provider: marks the
    /// assignment acknowledged and advances the job's status. A second
    /// acknowledgement of the same assignment is a no-op: the status is not
    /// advanced twice. A failed call leaves the store untouched.
    pub fn acknowledge_match(&mut self, provider: u64, id: JobId) -> (r: Result<(), Error>)
        requires
            old(self).wf(),
        ensures
            final(self).wf(),
            r == old(self).acknowledge_outcome(provider, id),
            r is Err ==> *final(self) == *old(self),
            (old(self).assignment(provider, id) matches Some(a) && a.acknowledged)
                ==> *final(self) == *old(self),
            (r is Ok && old(self).assignment(provider, id) is Some && !old(self).assignment(
                provider, id).unwrap().acknowledged) ==> ({
                let a = old(self).assignment(provider, id).unwrap();
                &&& final(self).assignment(provider, id) == Some(
                    (Assignment { acknowledged: true, ..a }),
                )
                &&& forall|k: (u64, JobId)| k != (provider, id) ==> final(self).assignment(
                    k.0, k.1) == old(self).assignment(k.0, k.1)
                &&& final(self).status(id) == Some(
                    status_after_acknowledge(old(self).status(id).unwrap()),
                )
                &&& forall|q: JobId| q != id ==> final(self).status(q) == old(self).status(q)
                &&& final(self).registrations_seq() == old(self).registrations_seq()
                &&& final(self).advertisements_seq() == old(self).advertisements_seq()
                &&& final(self).pricing_seq() == old(self).pricing_seq()
                &&& final(self).capacities_seq() == old(self).capacities_seq()
                &&& final(self).attested_seq() == old(self).attested_seq()
                &&& final(self).valid_assets_seq() == old(self).valid_assets_seq()
                &&& final(self).tolerance() == old(self).tolerance()
            }),
    {
        let a = match asg_find(&self.assignments, provider, id) {
            Some(a) => a,
            None => {
                return Err(Error::CannotAcknowledgeWhenNotMatched);
            },
        };
        if a.acknowledged {
            return Ok(());
        }
        let new_status = match status_find(&self.statuses, id) {
            None => {
                return Err(Error::JobStatusNotFound);
            },
            Some(JobStatus::Open) => {
                return Err(Error::CannotAcknowledgeWhenNotMatched);
            },
            Some(JobStatus::Matched) => JobStatus::Assigned(1),
            Some(JobStatus::Assigned(n)) => {
                if n == u8::MAX {
                    return Err(Error::CalculationOverflow);
                }
                JobStatus::Assigned(n + 1)
            },
        };
        asg_upsert(
            &mut self.assignments,
            provider,
            id,
            Assignment { acknowledged: true, ..a },
        );
        status_upsert(&mut self.statuses, id, new_status);
        Ok(())
    }

    /// What reporting would return, and on which input each error comes.
    pub open spec fn report_outcome(self, provider: u64, id: JobId, last: bool, now: u64)
        -> Result<Assignment, Error>
    {
        match self.assignment(provider, id) {
            None => Err(Error::ReportFromUnassignedSource),
            Some(a) => if !a.acknowledged {
                Err(Error::CannotReportWhenNotAcknowledged)
            } else if a.sla.met >= a.sla.total {
                Err(Error::MoreReportsThanExpected)
            } else {
                match self.registration(id) {
                    None => Err(Error::JobRegistrationNotFound),
                    Some(reg) => if now + self.tolerance() > u64::MAX {
                        Err(Error::CalculationOverflow)
                    } else if reg.schedule.iter_overflows(a.start_delay) {
                        Err(Error::CalculationOverflow)
                    } else if !reg.schedule.overlaps_spec(
                        a.start_delay,
                        now,
                        (now + self.tolerance()) as u64,
                    ) {
                        Err(Error::ReportOutsideSchedule)
                    } else if last && (match self.capacity(provider) {
                        Some(c) => c as int,
                        None => 0,
                    }) + reg.storage > i64::MAX {
                        Err(Error::CalculationOverflow)
                    } else {
                        Ok(assignment_after_report(a))
                    },
                }
            },
        }
    }

    /// Accepts a provider's report for one execution of an assigned job,
    /// provided the report arrives while `[now, now + tolerance]` intersects
    /// an agreed execution window. Returns the updated assignment, whose fee
    /// the caller owes the provider as the final, non-revertible step. A
    /// `last` report removes the assignment, the job's status and its
    /// registration, and restores the provider's capacity by the job's
    /// storage. The reported result itself is only notification payload and
    /// does not influence the outcome. A failed call leaves the store
    /// untouched.
    pub fn report(&mut self, provider: u64, id: JobId, last: bool, result: ExecutionResult,
        now: u64) -> (r: Result<Assignment, Error>)
        requires
            old(self).wf(),
        ensures
            final(self).wf(),
            r == old(self).report_outcome(provider, id, last, now),
            r is Err ==> *final(self) == *old(self),
            r is Ok && !last ==> ({
                &&& final(self).assignment(provider, id) == Some(
                    assignment_after_report(old(self).assignment(provider, id).unwrap()),
                )
                &&& forall|k: (u64, JobId)| k != (provider, id) ==> final(self).assignment(
                    k.0, k.1) == old(self).assignment(k.0, k.1)
                &&& final(self).registrations_seq() == old(self).registrations_seq()
                &&& final(self).statuses_seq() == old(self).statuses_seq()
                &&& final(self).capacities_seq() == old(self).capacities_seq()
            }),
            r is Ok && last ==> ({
                &&& final(self).assignment(provider, id) is None
                &&& forall|k: (u64, JobId)| k != (provider, id) ==> final(self).assignment(
                    k.0, k.1) == old(self).assignment(k.0, k.1)
                &&& final(self).status(id) is None
                &&& forall|q: JobId| q != id ==> final(self).status(q) == old(self).status(q)
                &&& final(self).registration(id) is None
                &&& forall|q: JobId| q != id ==> final(self).registration(q) == old(
                    self,
                ).registration(q)
                &&& final(self).capacity(provider) == Some(
                    (((match old(self).capacity(provider) {
                        Some(c) => c as int,
                        None => 0,
                    }) + old(self).registration(id).unwrap().storage) as i64),
                )
                &&& forall|q: u64| q != provider ==> final(self).capacity(q) == old(
                    self,
                ).capacity(q)
            }),
            r is Ok ==> ({
                &&& final(self).advertisements_seq() == old(self).advertisements_seq()
                &&& final(self).pricing_seq() == old(self).pricing_seq()
                &&& final(self).attested_seq() == old(self).attested_seq()
                &&& final(self).valid_assets_seq() == old(self).valid_assets_seq()
                &&& final(self).tolerance() == old(self).tolerance()
            }),
    {
        let a = match asg_find(&self.assignments, provider, id) {
            Some(a) => a,
            None => {
                return Err(Error::ReportFromUnassignedSource);
            },
        };
        if !a.acknowledged {
            return Err(Error::CannotReportWhenNotAcknowledged);
        }
        if a.sla.met >= a.sla.total {
            return Err(Error::MoreReportsThanExpected);
        }
        let ri = match regs_index(&self.registrations, id) {
            Some(i) => i,
            None => {
                return Err(Error::JobRegistrationNotFound);
            },
        };
        let now_max = match now.checked_add(self.report_tolerance) {
            Some(x) => x,
            None => {
                return Err(Error::CalculationOverflow);
            },
        };
        let within = match self.registrations[ri].1.schedule.overlaps(a.start_delay, now, now_max)
        {
            Ok(b) => b,
            Err(_) => {
                return Err(Error::CalculationOverflow);
            },
        };
        if !within {
            return Err(Error::ReportOutsideSchedule);
        }
        let updated = Assignment {
            sla: SLA { total: a.sla.total, met: a.sla.met + 1 },
            ..a
        };
        if last {
            let storage = self.registrations[ri].1.storage;
            let base = match caps_find(&self.capacities, provider) {
                Some(c) => c,
                None => 0,
            };
            let new_cap = match base.checked_add(storage as i64) {
                Some(x) => x,
                None => {
                    return Err(Error::CalculationOverflow);
                },
            };
            asg_remove(&mut self.assignments, provider, id);
            status_remove(&mut self.statuses, id);
            caps_upsert(&mut self.capacities, provider, new_cap);
            regs_remove(&mut self.registrations, id);
        } else {
            asg_upsert(&mut self.assignments, provider, id, updated);
        }
        Ok(updated)
    }

    /// What deregistering would return, and on which input each error comes.
    /// A job that is no longer open cannot be deregistered.
    pub open spec fn deregister_outcome(self, id: JobId) -> Result<(), Error> {
        match self.status(id) {
            None => Err(Error::JobStatusNotFound),
            Some(JobStatus::Open) => Ok(()),
            Some(_) => Err(Error::JobRegistrationNotFound),
        }
    }

    /// Removes a job that is still open: its registration and its status.
    /// A matched or assigned job is refused; a failed call leaves the store
    /// untouched.
    pub fn deregister(&mut self, consumer: u64, script: u64) -> (r: Result<(), Error>)
        requires
            old(self).wf(),
        ensures
            final(self).wf(),
            r == old(self).deregister_outcome((JobId { consumer, script })),
            r is Err ==> *final(self) == *old(self),
            r is Ok ==> ({
                let id = JobId { consumer, script };
                &&& final(self).registration(id) is None
                &&& final(self).status(id) is None
                &&& forall|q: JobId| q != id ==> final(self).registration(q) == old(
                    self,
                ).registration(q)
                &&& forall|q: JobId| q != id ==> final(self).status(q) == old(self).status(q)
                &&& final(self).advertisements_seq() == old(self).advertisements_seq()
                &&& final(self).pricing_seq() == old(self).pricing_seq()
                &&& final(self).capacities_seq() == old(self).capacities_seq()
                &&& final(self).assignments_seq() == old(self).assignments_seq()
                &&& final(self).attested_seq() == old(self).attested_seq()
                &&& final(self).valid_assets_seq() == old(self).valid_assets_seq()
                &&& final(self).tolerance() == old(self).tolerance()
            }),
    {
        let id = JobId { consumer, script };
        match status_find(&self.statuses, id) {
            None => Err(Error::JobStatusNotFound),
            Some(JobStatus::Open) => {
                regs_remove(&mut self.registrations, id);
                status_remove(&mut self.statuses, id);
                Ok(())
            },
            Some(_) => Err(Error::JobRegistrationNotFound),
        }
    }

    /// The status map after a registration: an existing (open) status is
    /// kept, a new job starts open.
    pub open spec fn registered_statuses(self, id: JobId) -> Seq<(JobId, JobStatus)> {
        if self.status(id) is Some {
            self.statuses@
        } else {
            alist_upsert(self.statuses@, id, JobStatus::Open)
        }
    }

    /// What the optional instant match of a registration returns, run
    /// against the store with the new registration already visible.
    pub open spec fn instant_match_outcome(self, id: JobId, reg: JobRegistration,
        v: Vec<PlannedExecution>, now: u64) -> Result<MatchProgress, Error> {
        match_outcome(
            self,
            alist_upsert(self.registrations@, id, reg),
            (Match { job_id: id, sources: v }),
            now,
            (MatchProgress {
                asg: self.assignments@,
                caps: self.capacities@,
                stats: self.registered_statuses(id),
                remaining: None,
            }),
        )
    }

    /// What registering would return, and on which input each error comes.
    pub open spec fn register_outcome(self, consumer: u64, script: u64, reg: JobRegistration,
        instant: Option<Vec<PlannedExecution>>, now: u64) -> Result<Reward, Error> {
        let id = JobId { consumer, script };
        if reg.allowed_sources matches Some(l) && l@.len() == 0 {
            Err(Error::TooFewAllowedSources)
        } else if reg.allowed_sources matches Some(l) && l@.len() > MAX_ALLOWED_SOURCES {
            Err(Error::TooManyAllowedSources)
        } else if reg.schedule.duration == 0 {
            Err(Error::JobRegistrationZeroDuration)
        } else if reg.schedule.execution_count_spec() > MAX_EXECUTIONS_PER_JOB {
            Err(Error::JobRegistrationScheduleExceedsMaximumExecutions)
        } else if reg.schedule.duration >= reg.schedule.interval {
            Err(Error::JobRegistrationDurationExceedsInterval)
        } else if reg.schedule.start_time < now {
            Err(Error::JobRegistrationStartInPast)
        } else if reg.schedule.start_time > reg.schedule.end_time {
            Err(Error::JobRegistrationEndBeforeStart)
        } else if reg.slots == 0 {
            Err(Error::JobRegistrationZeroSlots)
        } else if reg.reward.amount == 0 {
            Err(Error::JobRegistrationZeroReward)
        } else if self.status(id) matches Some(s) && s != JobStatus::Open {
            Err(Error::JobRegistrationUnmodifiable)
        } else {
            match instant {
                Some(v) => match self.instant_match_outcome(id, reg, v, now) {
                    Err(e) => Err(e),
                    Ok(_) => reward_to_lock(reg),
                },
                None => reward_to_lock(reg),
            }
        }
    }

    /// Registers a job: validates the schedule, slots and reward, stores the
    /// registration (overwriting one that is still open), opens the job's
    /// status, optionally matches it at once, and returns the reward the
    /// caller must lock for the job's whole budget as the final,
    /// non-revertible step. A failed call leaves the store untouched.
    #[verifier::rlimit(50)]
    pub fn register(&mut self, consumer: u64, script: u64, registration: JobRegistration,
        instant_match: Option<Vec<PlannedExecution>>, now: u64) -> (r: Result<Reward, Error>)
        requires
            old(self).wf(),
        ensures
            final(self).wf(),
            r == old(self).register_outcome(consumer, script, registration, instant_match, now),
            r is Err ==> stores_equal(*final(self), *old(self)),
            r is Ok ==> ({
                let id = JobId { consumer, script };
                &&& final(self).registrations@ == alist_upsert(old(self).registrations@, id,
                    registration)
                &&& (instant_match is None ==> final(self).statuses@ == old(
                    self,
                ).registered_statuses(id) && final(self).assignments@ == old(self).assignments@
                    && final(self).capacities@ == old(self).capacities@)
                &&& (instant_match matches Some(v) ==> ({
                    let mo = old(self).instant_match_outcome(id, registration, v, now);
                    &&& mo is Ok
                    &&& final(self).assignments@ == mo.unwrap().asg
                    &&& final(self).capacities@ == mo.unwrap().caps
                    &&& final(self).statuses@ == mo.unwrap().stats
                }))
            }),
            final(self).advertisements_seq() == old(self).advertisements_seq(),
            final(self).pricing_seq() == old(self).pricing_seq(),
            final(self).attested_seq() == old(self).attested_seq(),
            final(self).valid_assets_seq() == old(self).valid_assets_seq(),
            final(self).tolerance() == old(self).tolerance(),
    {
        let id = JobId { consumer, script };
        match &registration.allowed_sources {
            Some(l) => {
                if l.len() == 0 {
                    return Err(Error::TooFewAllowedSources);
                }
                if l.len() > MAX_ALLOWED_SOURCES {
                    return Err(Error::TooManyAllowedSources);
                }
            },
            None => {},
        }
        if registration.schedule.duration == 0 {
            return Err(Error::JobRegistrationZeroDuration);
        }
        let count = registration.schedule.execution_count();
        if count > MAX_EXECUTIONS_PER_JOB {
            return Err(Error::JobRegistrationScheduleExceedsMaximumExecutions);
        }
        if registration.schedule.duration >= registration.schedule.interval {
            return Err(Error::JobRegistrationDurationExceedsInterval);
        }
        if registration.schedule.start_time < now {
            return Err(Error::JobRegistrationStartInPast);
        }
        if registration.schedule.start_time > registration.schedule.end_time {
            return Err(Error::JobRegistrationEndBeforeStart);
        }
        if registration.slots == 0 {
            return Err(Error::JobRegistrationZeroSlots);
        }
        if registration.reward.amount == 0 {
            return Err(Error::JobRegistrationZeroReward);
        }
        let had_status = match crate::maps::status_find(&self.statuses, id) {
            Some(JobStatus::Open) => true,
            Some(_) => {
                return Err(Error::JobRegistrationUnmodifiable);
            },
            None => false,
        };
        let asset = registration.reward.asset;
        let total_result = Marketplace::total_reward_amount(&registration);
        let ghost reg_spec = registration;
        let ghost orig_regs = self.registrations@;
        let ghost orig_stats = self.statuses@;
        // commit the registration and status provisionally; undone below if
        // the instant match or the budget computation fails
        let saved: Option<(usize, (JobId, JobRegistration))> = match crate::maps::regs_index(
            &self.registrations, id) {
            Some(i) => {
                let old_entry = self.registrations.remove(i);
                self.registrations.insert(i, (id, registration));
                proof {
                    lemma_alist_upsert_is_update(orig_regs, i as int, id, reg_spec);
                    assert(self.registrations@ =~= alist_upsert(orig_regs, id, reg_spec));
                }
                Some((i, old_entry))
            },
            None => {
                self.registrations.push((id, registration));
                proof {
                    lemma_alist_find_none(orig_regs, id);
                    lemma_alist_upsert_is_push(orig_regs, id, reg_spec);
                }
                None
            },
        };
        if !had_status {
            crate::maps::status_upsert(&mut self.statuses, id, JobStatus::Open);
        }
        proof {
            assert(self.statuses@ == old(self).registered_statuses(id));
            lemma_alist_upsert_unique(orig_regs, id, reg_spec);
            assert forall|q: JobId| #[trigger] alist_find(self.registrations@, q) is Some
                implies alist_find(self.registrations@, q).unwrap().schedule.wf() by {
                lemma_alist_find_upsert(orig_regs, id, reg_spec, q);
            }
        }
        match instant_match {
            Some(v) => {
                let ghost v_spec = v;
                let mm = Match { job_id: id, sources: v };
                let mut asg = copy_asg(&self.assignments);
                let mut caps = copy_caps(&self.capacities);
                let mut stats = copy_stats(&self.statuses);
                let step = self.admit_match(&mm, now, &mut asg, &mut caps, &mut stats, None);
                proof {
                    lemma_match_outcome_store_agnostic(
                        *self,
                        *old(self),
                        alist_upsert(orig_regs, id, reg_spec),
                        mm,
                        now,
                        (MatchProgress {
                            asg: old(self).assignments@,
                            caps: old(self).capacities@,
                            stats: old(self).registered_statuses(id),
                            remaining: None,
                        }),
                    );
                }
                match step {
                    Err(e) => {
                        match saved {
                            Some((i, entry)) => {
                                let _cur = self.registrations.remove(i);
                                self.registrations.insert(i, entry);
                                proof {
                                    assert(self.registrations@ =~= orig_regs);
                                }
                            },
                            None => {
                                let _last = self.registrations.pop();
                                proof {
                                    assert(self.registrations@ =~= orig_regs);
                                }
                            },
                        }
                        if !had_status {
                            let _s = self.statuses.pop();
                            proof {
                                lemma_alist_find_none(orig_stats, id);
                                lemma_alist_upsert_is_push(orig_stats, id, JobStatus::Open);
                                assert(self.statuses@ =~= orig_stats);
                            }
                        }
                        return Err(e);
                    },
                    Ok(_) => {
                        match total_result {
                            Err(e) => {
                                match saved {
                                    Some((i, entry)) => {
                                        let _cur = self.registrations.remove(i);
                                        self.registrations.insert(i, entry);
                                        proof {
                                            assert(self.registrations@ =~= orig_regs);
                                        }
                                    },
                                    None => {
                                        let _last = self.registrations.pop();
                                        proof {
                                            assert(self.registrations@ =~= orig_regs);
                                        }
                                    },
                                }
                                if !had_status {
                                    let _s = self.statuses.pop();
                                    proof {
                                        lemma_alist_find_none(orig_stats, id);
                                        lemma_alist_upsert_is_push(orig_stats, id,
                                            JobStatus::Open);
                                        assert(self.statuses@ =~= orig_stats);
                                    }
                                }
                                return Err(e);
                            },
                            Ok(total) => {
                                self.assignments = asg;
                                self.capacities = caps;
                                self.statuses = stats;
                                Ok(Reward { asset, amount: total })
                            },
                        }
                    },
                }
            },
            None => {
                match total_result {
                    Err(e) => {
                        match saved {
                            Some((i, entry)) => {
                                let _cur = self.registrations.remove(i);
                                self.registrations.insert(i, entry);
                                proof {
                                    assert(self.registrations@ =~= orig_regs);
                                }
                            },
                            None => {
                                let _last = self.registrations.pop();
                                proof {
                                    assert(self.registrations@ =~= orig_regs);
                                }
                            },
                        }
                        if !had_status {
                            let _s = self.statuses.pop();
                            proof {
                                lemma_alist_find_none(orig_stats, id);
                                lemma_alist_upsert_is_push(orig_stats, id, JobStatus::Open);
                                assert(self.statuses@ =~= orig_stats);
                            }
                        }
                        return Err(e);
                    },
                    Ok(total) => Ok(Reward { asset, amount: total }),
                }
            },
        }
    }

    /// What updating the whitelist would return, and on which input each
    /// error comes. Only a job that is still open can be updated.
    pub open spec fn update_allowed_sources_outcome(self, id: JobId,
        updates: Seq<AllowedSourcesUpdate>) -> Result<(), Error> {
        match self.registration(id) {
            None => Err(Error::JobRegistrationNotFound),
            Some(reg) => {
                let cur = match opt_vec_view(reg.allowed_sources) {
                    Some(s) => s,
                    None => Seq::empty(),
                };
                if apply_updates(cur, updates).len() > MAX_ALLOWED_SOURCES {
                    Err(Error::TooManyAllowedSources)
                } else {
                    match self.status(id) {
                        None => Err(Error::JobStatusNotFound),
                        Some(JobStatus::Open) => Ok(()),
                        Some(_) => Err(Error::JobRegistrationUnmodifiable),
                    }
                }
            },
        }
    }

    /// The whitelist a job ends up with after the updates: additions of
    /// absent entries, removals of first occurrences, in order; a list that
    /// ends up empty becomes an absent whitelist (no restriction).
    pub open spec fn allowed_after_updates(self, id: JobId, updates: Seq<AllowedSourcesUpdate>)
        -> Option<Seq<u64>> {
        let cur = match opt_vec_view(self.registration(id).unwrap().allowed_sources) {
            Some(s) => s,
            None => Seq::empty(),
        };
        let res = apply_updates(cur, updates);
        if res.len() == 0 {
            None
        } else {
            Some(res)
        }
    }

    /// Applies whitelist updates to a job that is still open, rewriting its
    /// registration's allowed-sources list. A failed call leaves the store
    /// untouched.
    pub fn update_allowed_sources(&mut self, consumer: u64, script: u64,
        updates: &Vec<AllowedSourcesUpdate>) -> (r: Result<(), Error>)
        requires
            old(self).wf(),
        ensures
            final(self).wf(),
            r == old(self).update_allowed_sources_outcome(
                (JobId { consumer, script }),
                updates@,
            ),
            r is Err ==> *final(self) == *old(self),
            r is Ok ==> ({
                let id = JobId { consumer, script };
                let old_reg = old(self).registration(id).unwrap();
                &&& final(self).registration(id) is Some
                &&& same_registration_but_allowed(final(self).registration(id).unwrap(), old_reg)
                &&& opt_vec_view(final(self).registration(id).unwrap().allowed_sources) == old(
                    self,
                ).allowed_after_updates(id, updates@)
                &&& forall|q: JobId| q != id ==> final(self).registration(q) == old(
                    self,
                ).registration(q)
                &&& final(self).statuses_seq() == old(self).statuses_seq()
                &&& final(self).advertisements_seq() == old(self).advertisements_seq()
                &&& final(self).pricing_seq() == old(self).pricing_seq()
                &&& final(self).capacities_seq() == old(self).capacities_seq()
                &&& final(self).assignments_seq() == old(self).assignments_seq()
                &&& final(self).attested_seq() == old(self).attested_seq()
                &&& final(self).valid_assets_seq() == old(self).valid_assets_seq()
                &&& final(self).tolerance() == old(self).tolerance()
            }),
    {
        let id = JobId { consumer, script };
        let ri = match regs_index(&self.registrations, id) {
            Some(i) => i,
            None => {
                return Err(Error::JobRegistrationNotFound);
            },
        };
        let ghost cur0: Seq<u64> = match opt_vec_view(
            self.registrations@[ri as int].1.allowed_sources,
        ) {
            Some(s) => s,
            None => Seq::empty(),
        };
        let mut cur: Vec<u64> = Vec::new();
        match &self.registrations[ri].1.allowed_sources {
            Some(v) => {
                let mut i: usize = 0;
                while i < v.len()
                    invariant
                        i <= v@.len(),
                        cur@ == v@.take(i as int),
                    decreases v@.len() - i,
                {
                    cur.push(v[i]);
                    proof {
                        assert(cur@ =~= v@.take(i as int + 1));
                    }
                    i = i + 1;
                }
                proof {
                    assert(v@.take(v@.len() as int) =~= v@);
                }
            },
            None => {},
        }
        assert(cur@ == cur0);
        let mut u: usize = 0;
        while u < updates.len()
            invariant
                u <= updates@.len(),
                cur@ == apply_updates(cur0, updates@.take(u as int)),
            decreases updates@.len() - u,
        {
            let upd = updates[u];
            let ghost before = cur@;
            match upd.operation {
                ListUpdateOperation::Add => {
                    if !contains_u64(&cur, upd.item) {
                        cur.push(upd.item);
                    }
                },
                ListUpdateOperation::Remove => {
                    match crate::maps::find_first_u64(&cur, upd.item) {
                        Some(i) => {
                            cur.remove(i);
                            proof {
                                lemma_remove_first_at(before, i as int, upd.item);
                            }
                        },
                        None => {
                            proof {
                                lemma_remove_first_absent(before, upd.item);
                            }
                        },
                    }
                },
            }
            proof {
                assert(cur@ == apply_update(before, upd));
                lemma_apply_updates_snoc(cur0, updates@.take(u as int), updates@[u as int]);
                assert(updates@.take(u as int).push(updates@[u as int]) =~= updates@.take(
                    u as int + 1));
            }
            u = u + 1;
        }
        proof {
            assert(updates@.take(updates@.len() as int) =~= updates@);
        }
        if cur.len() > MAX_ALLOWED_SOURCES {
            return Err(Error::TooManyAllowedSources);
        }
        match status_find(&self.statuses, id) {
            None => {
                return Err(Error::JobStatusNotFound);
            },
            Some(JobStatus::Open) => {},
            Some(_) => {
                return Err(Error::JobRegistrationUnmodifiable);
            },
        }
        let schedule = self.registrations[ri].1.schedule;
        let slots = self.registrations[ri].1.slots;
        let memory = self.registrations[ri].1.memory;
        let storage = self.registrations[ri].1.storage;
        let network_requests = self.registrations[ri].1.network_requests;
        let reward = self.registrations[ri].1.reward;
        let allow_only_verified_sources = self.registrations[ri].1.allow_only_verified_sources;
        let allowed_sources = if cur.len() == 0 {
            None
        } else {
            Some(cur)
        };
        crate::maps::regs_upsert(
            &mut self.registrations,
            id,
            JobRegistration {
                schedule,
                slots,
                memory,
                storage,
                network_requests,
                reward,
                allow_only_verified_sources,
                allowed_sources,
            },
        );
        Ok(())
    }
}

} // verus!
