use acurast_marketplace::{
    Advertisement, AllowedSourcesUpdate, Error, ExecutionResult, JobId, JobRegistration,
    JobStatus, ListUpdateOperation, Marketplace, Match, PlannedExecution, PricingVariant,
    Reward, Schedule, SchedulingWindow,
};

fn sched(start: u64, end: u64, duration: u64, interval: u64) -> Schedule {
    Schedule { start_time: start, end_time: end, interval, duration }
}

fn standard_ad() -> Advertisement {
    Advertisement {
        max_memory: 100,
        network_request_quota: 10,
        storage_capacity: 100,
        allowed_consumers: None,
        pricing: vec![PricingVariant {
            reward_asset: 1,
            fee_per_millisecond: 2,
            fee_per_storage_byte: 1,
            base_fee_per_execution: 5,
            scheduling_window: SchedulingWindow::End(u64::MAX),
        }],
    }
}

fn job(amount: u128) -> JobRegistration {
    JobRegistration {
        schedule: sched(1000, 5000, 500, 1000),
        slots: 1,
        memory: 8,
        storage: 10,
        network_requests: 1,
        reward: Reward { asset: 1, amount },
        allow_only_verified_sources: false,
        allowed_sources: None,
    }
}

const FEE: u128 = 1015;

fn jid(consumer: u64, script: u64) -> JobId {
    JobId { consumer, script }
}

fn one_slot(id: JobId, source: u64) -> Match {
    Match { job_id: id, sources: vec![PlannedExecution { source, start_delay: 0 }] }
}

/// A store with provider 10 matched and acknowledged on job (1, 7).
fn matched() -> Marketplace {
    let mut m = Marketplace::new(100);
    m.allow_asset(1);
    m.advertise(10, standard_ad()).unwrap();
    m.register(1, 7, job(FEE), None, 500).unwrap();
    m.propose_matching(&vec![one_slot(jid(1, 7), 10)], 500).unwrap();
    m
}

#[test]
fn acknowledge_advances_status_once() {
    let mut m = matched();
    let id = jid(1, 7);
    assert_eq!(m.acknowledge_match(10, id), Ok(()));
    assert_eq!(m.job_status(id), Some(JobStatus::Assigned(1)));
    assert!(m.assignment_of(10, id).unwrap().acknowledged);
    // idempotence: a second acknowledgement changes nothing
    assert_eq!(m.acknowledge_match(10, id), Ok(()));
    assert_eq!(m.job_status(id), Some(JobStatus::Assigned(1)));
}

#[test]
fn acknowledge_requires_a_match() {
    let mut m = matched();
    assert_eq!(
        m.acknowledge_match(11, jid(1, 7)),
        Err(Error::CannotAcknowledgeWhenNotMatched)
    );
    assert_eq!(
        m.acknowledge_match(10, jid(9, 9)),
        Err(Error::CannotAcknowledgeWhenNotMatched)
    );
}

#[test]
fn report_within_window_pays_and_counts() {
    let mut m = matched();
    let id = jid(1, 7);
    m.acknowledge_match(10, id).unwrap();
    let a = m.report(10, id, false, ExecutionResult::Success(42), 1000).unwrap();
    assert_eq!(a.sla.met, 1);
    assert_eq!(a.fee_per_execution, Reward { asset: 1, amount: FEE });
    // the assignment persists with the met count stored
    assert_eq!(m.assignment_of(10, id).unwrap().sla.met, 1);
    assert!(m.has_registration(id));
}

#[test]
fn more_reports_than_expected_are_rejected() {
    let mut m = matched();
    let id = jid(1, 7);
    m.acknowledge_match(10, id).unwrap();
    for expected in 1..=4u64 {
        let a = m.report(10, id, false, ExecutionResult::Success(1), 1000).unwrap();
        assert_eq!(a.sla.met, expected);
    }
    assert_eq!(
        m.report(10, id, false, ExecutionResult::Success(1), 1000),
        Err(Error::MoreReportsThanExpected)
    );
}

#[test]
fn report_requires_acknowledgement() {
    let mut m = matched();
    let id = jid(1, 7);
    assert_eq!(
        m.report(10, id, false, ExecutionResult::Success(1), 1000),
        Err(Error::CannotReportWhenNotAcknowledged)
    );
    assert_eq!(
        m.report(11, id, false, ExecutionResult::Success(1), 1000),
        Err(Error::ReportFromUnassignedSource)
    );
}

#[test]
fn report_outside_schedule_is_rejected() {
    let mut m = matched();
    let id = jid(1, 7);
    m.acknowledge_match(10, id).unwrap();
    // the window [5000, 5100] starts after the last execution ended at 4500
    assert_eq!(
        m.report(10, id, false, ExecutionResult::Success(1), 5000),
        Err(Error::ReportOutsideSchedule)
    );
    // the tolerance lets a report arrive just after a window opened
    assert_eq!(m.assignment_of(10, id).unwrap().sla.met, 0);
}

#[test]
fn final_report_clears_job_and_restores_capacity() {
    let mut m = matched();
    let id = jid(1, 7);
    m.acknowledge_match(10, id).unwrap();
    assert_eq!(m.capacity_of(10), Some(90));
    let a = m.report(10, id, true, ExecutionResult::Failure(3), 1000).unwrap();
    assert_eq!(a.sla.met, 1);
    assert_eq!(m.assignment_of(10, id), None);
    assert_eq!(m.job_status(id), None);
    assert!(!m.has_registration(id));
    assert_eq!(m.capacity_of(10), Some(100));
    // with no assignment left the advertisement can be deleted
    assert_eq!(m.delete_advertisement(10), Ok(()));
}

#[test]
fn orphaned_assignment_after_final_report_of_other_slot() {
    let mut m = Marketplace::new(100);
    m.allow_asset(1);
    m.advertise(10, standard_ad()).unwrap();
    m.advertise(11, standard_ad()).unwrap();
    let id = jid(1, 7);
    let mut j = job(FEE);
    j.slots = 2;
    m.register(1, 7, j, None, 500).unwrap();
    let mm = Match {
        job_id: id,
        sources: vec![
            PlannedExecution { source: 10, start_delay: 0 },
            PlannedExecution { source: 11, start_delay: 500 },
        ],
    };
    m.propose_matching(&vec![mm], 500).unwrap();
    m.acknowledge_match(10, id).unwrap();
    m.acknowledge_match(11, id).unwrap();
    assert_eq!(m.job_status(id), Some(JobStatus::Assigned(2)));
    // provider 10 files the final report; job and status disappear
    m.report(10, id, true, ExecutionResult::Success(1), 1000).unwrap();
    // provider 11's assignment is left dangling: its report finds no job
    assert_eq!(
        m.report(11, id, false, ExecutionResult::Success(1), 1500),
        Err(Error::JobRegistrationNotFound)
    );
}

#[test]
fn acknowledge_without_status_is_a_severe_error() {
    let mut m = Marketplace::new(100);
    m.allow_asset(1);
    m.advertise(10, standard_ad()).unwrap();
    m.advertise(11, standard_ad()).unwrap();
    let id = jid(1, 7);
    let mut j = job(FEE);
    j.slots = 2;
    m.register(1, 7, j, None, 500).unwrap();
    let mm = Match {
        job_id: id,
        sources: vec![
            PlannedExecution { source: 10, start_delay: 0 },
            PlannedExecution { source: 11, start_delay: 500 },
        ],
    };
    m.propose_matching(&vec![mm], 500).unwrap();
    m.acknowledge_match(10, id).unwrap();
    m.report(10, id, true, ExecutionResult::Success(1), 1000).unwrap();
    // provider 11 acknowledges a job whose status is gone
    assert_eq!(m.acknowledge_match(11, id), Err(Error::JobStatusNotFound));
}

#[test]
fn registration_validations() {
    let mut m = Marketplace::new(100);
    m.allow_asset(1);
    let mut j = job(FEE);
    j.schedule.duration = 0;
    assert_eq!(m.register(1, 7, j, None, 500), Err(Error::JobRegistrationZeroDuration));

    let mut j = job(FEE);
    j.schedule = sched(1000, 50000000, 1, 2);
    assert_eq!(
        m.register(1, 7, j, None, 500),
        Err(Error::JobRegistrationScheduleExceedsMaximumExecutions)
    );

    let mut j = job(FEE);
    j.schedule.interval = 500;
    assert_eq!(
        m.register(1, 7, j, None, 500),
        Err(Error::JobRegistrationDurationExceedsInterval)
    );

    assert_eq!(
        m.register(1, 7, job(FEE), None, 1001),
        Err(Error::JobRegistrationStartInPast)
    );

    let mut j = job(FEE);
    j.schedule = sched(2000, 1000, 500, 1000);
    assert_eq!(m.register(1, 7, j, None, 500), Err(Error::JobRegistrationEndBeforeStart));

    let mut j = job(FEE);
    j.slots = 0;
    assert_eq!(m.register(1, 7, j, None, 500), Err(Error::JobRegistrationZeroSlots));

    assert_eq!(m.register(1, 7, job(0), None, 500), Err(Error::JobRegistrationZeroReward));

    let mut j = job(FEE);
    j.allowed_sources = Some(vec![]);
    assert_eq!(m.register(1, 7, j, None, 500), Err(Error::TooFewAllowedSources));

    let mut j = job(FEE);
    j.allowed_sources = Some((0..101).collect());
    assert_eq!(m.register(1, 7, j, None, 500), Err(Error::TooManyAllowedSources));

    assert!(!m.has_registration(jid(1, 7)));
}

#[test]
fn job_status_default_is_open() {
    assert_eq!(JobStatus::default(), JobStatus::Open);
}

#[test]
fn register_with_overflowing_budget_is_rolled_back() {
    let mut m = Marketplace::new(100);
    m.allow_asset(1);
    m.advertise(10, standard_ad()).unwrap();
    // the whole budget, amount * slots * executions, exceeds the numeric
    // range although the per-execution fee is covered
    assert_eq!(
        m.register(1, 7, job(u128::MAX), None, 500),
        Err(Error::CalculationOverflow)
    );
    assert!(!m.has_registration(jid(1, 7)));
    assert_eq!(m.job_status(jid(1, 7)), None);
    // the same with an instant match: the match is undone with the rest
    let sources = vec![PlannedExecution { source: 10, start_delay: 0 }];
    assert_eq!(
        m.register(1, 7, job(u128::MAX), Some(sources), 500),
        Err(Error::CalculationOverflow)
    );
    assert!(!m.has_registration(jid(1, 7)));
    assert_eq!(m.assignment_of(10, jid(1, 7)), None);
    assert_eq!(m.capacity_of(10), Some(100));
}

#[test]
fn reregistration_only_while_open() {
    let mut m = Marketplace::new(100);
    m.allow_asset(1);
    m.advertise(10, standard_ad()).unwrap();
    m.register(1, 7, job(FEE), None, 500).unwrap();
    // still open: overwriting is allowed
    assert!(m.register(1, 7, job(2000), None, 500).is_ok());
    assert_eq!(m.job_status(jid(1, 7)), Some(JobStatus::Open));
    m.propose_matching(&vec![one_slot(jid(1, 7), 10)], 500).unwrap();
    // matched: the job can no longer be modified
    assert_eq!(
        m.register(1, 7, job(3000), None, 500),
        Err(Error::JobRegistrationUnmodifiable)
    );
}

#[test]
fn deregister_only_while_open() {
    let mut m = Marketplace::new(100);
    m.allow_asset(1);
    m.advertise(10, standard_ad()).unwrap();
    assert_eq!(m.deregister(1, 7), Err(Error::JobStatusNotFound));
    m.register(1, 7, job(FEE), None, 500).unwrap();
    assert_eq!(m.deregister(1, 7), Ok(()));
    assert!(!m.has_registration(jid(1, 7)));
    assert_eq!(m.job_status(jid(1, 7)), None);
    m.register(1, 7, job(FEE), None, 500).unwrap();
    m.propose_matching(&vec![one_slot(jid(1, 7), 10)], 500).unwrap();
    assert_eq!(m.deregister(1, 7), Err(Error::JobRegistrationNotFound));
    assert!(m.has_registration(jid(1, 7)));
}

#[test]
fn update_allowed_sources_applies_in_order() {
    let mut m = Marketplace::new(100);
    m.allow_asset(1);
    m.advertise(10, standard_ad()).unwrap();
    let mut j = job(FEE);
    j.allowed_sources = Some(vec![20, 21]);
    m.register(1, 7, j, None, 500).unwrap();
    let updates = vec![
        AllowedSourcesUpdate { operation: ListUpdateOperation::Add, item: 10 },
        AllowedSourcesUpdate { operation: ListUpdateOperation::Remove, item: 20 },
        AllowedSourcesUpdate { operation: ListUpdateOperation::Add, item: 21 },
    ];
    assert_eq!(m.update_allowed_sources(1, 7, &updates), Ok(()));
    // the whitelist is now [21, 10]: provider 10 is admitted
    assert!(m.propose_matching(&vec![one_slot(jid(1, 7), 10)], 500).is_ok());
}

#[test]
fn update_allowed_sources_emptied_list_admits_everyone() {
    let mut m = Marketplace::new(100);
    m.allow_asset(1);
    m.advertise(10, standard_ad()).unwrap();
    let mut j = job(FEE);
    j.allowed_sources = Some(vec![20]);
    m.register(1, 7, j, None, 500).unwrap();
    let updates = vec![AllowedSourcesUpdate {
        operation: ListUpdateOperation::Remove,
        item: 20,
    }];
    assert_eq!(m.update_allowed_sources(1, 7, &updates), Ok(()));
    assert!(m.propose_matching(&vec![one_slot(jid(1, 7), 10)], 500).is_ok());
}

#[test]
fn update_allowed_sources_guards() {
    let mut m = Marketplace::new(100);
    m.allow_asset(1);
    m.advertise(10, standard_ad()).unwrap();
    let add_one = vec![AllowedSourcesUpdate { operation: ListUpdateOperation::Add, item: 1 }];
    assert_eq!(
        m.update_allowed_sources(1, 7, &add_one),
        Err(Error::JobRegistrationNotFound)
    );
    m.register(1, 7, job(FEE), None, 500).unwrap();
    let mut too_many = Vec::new();
    for i in 0..101u64 {
        too_many.push(AllowedSourcesUpdate { operation: ListUpdateOperation::Add, item: i });
    }
    assert_eq!(
        m.update_allowed_sources(1, 7, &too_many),
        Err(Error::TooManyAllowedSources)
    );
    m.propose_matching(&vec![one_slot(jid(1, 7), 10)], 500).unwrap();
    assert_eq!(
        m.update_allowed_sources(1, 7, &add_one),
        Err(Error::JobRegistrationUnmodifiable)
    );
}
