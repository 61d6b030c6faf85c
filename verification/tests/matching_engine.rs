use acurast_marketplace::{
    Advertisement, Error, JobId, JobRegistration, JobStatus, Marketplace, Match,
    PlannedExecution, PricingVariant, Reward, Schedule, SchedulingWindow,
};

fn sched(start: u64, end: u64, duration: u64, interval: u64) -> Schedule {
    Schedule { start_time: start, end_time: end, interval, duration }
}

fn pricing(asset: u64) -> PricingVariant {
    PricingVariant {
        reward_asset: asset,
        fee_per_millisecond: 2,
        fee_per_storage_byte: 1,
        base_fee_per_execution: 5,
        scheduling_window: SchedulingWindow::End(u64::MAX),
    }
}

fn standard_ad() -> Advertisement {
    Advertisement {
        max_memory: 100,
        network_request_quota: 10,
        storage_capacity: 100,
        allowed_consumers: None,
        pricing: vec![pricing(1)],
    }
}

fn job(amount: u128) -> JobRegistration {
    JobRegistration {
        schedule: sched(1000, 5000, 500, 1000),
        slots: 1,
        memory: 8,
        storage: 10,
        network_requests: 1,
        reward: Reward { asset: 1, amount },
        allow_only_verified_sources: false,
        allowed_sources: None,
    }
}

// fee per execution under `pricing(1)`: 2 * 500 + 1 * 10 + 5 = 1015
const FEE: u128 = 1015;

fn jid(consumer: u64, script: u64) -> JobId {
    JobId { consumer, script }
}

fn one_slot(id: JobId, source: u64) -> Match {
    Match { job_id: id, sources: vec![PlannedExecution { source, start_delay: 0 }] }
}

fn setup() -> Marketplace {
    let mut m = Marketplace::new(100);
    m.allow_asset(1);
    m.advertise(10, standard_ad()).unwrap();
    m
}

#[test]
fn scenario_exact_reward_match() {
    let mut m = setup();
    let id = jid(1, 7);
    let locked = m.register(1, 7, job(FEE), None, 500).unwrap();
    assert_eq!(locked, Reward { asset: 1, amount: FEE * 4 });
    assert_eq!(m.job_status(id), Some(JobStatus::Open));
    let remaining = m.propose_matching(&vec![one_slot(id, 10)], 500).unwrap();
    assert_eq!(remaining, Reward { asset: 1, amount: 0 });
    assert_eq!(m.job_status(id), Some(JobStatus::Matched));
    assert_eq!(m.capacity_of(10), Some(90));
    let a = m.assignment_of(10, id).unwrap();
    assert_eq!(a.fee_per_execution, Reward { asset: 1, amount: FEE });
    assert_eq!(a.sla.total, 4);
    assert_eq!(a.sla.met, 0);
    assert!(!a.acknowledged);
    assert_eq!(a.slot, 0);
}

#[test]
fn conservation_of_reward() {
    let mut m = setup();
    let id = jid(1, 7);
    m.register(1, 7, job(2000), None, 500).unwrap();
    let remaining = m.propose_matching(&vec![one_slot(id, 10)], 500).unwrap();
    // fees + remainder account for the whole budget
    assert_eq!(FEE * 4 + remaining.amount, 2000 * 4);
}

#[test]
fn scenario_gap_schedules_share_provider() {
    let mut m = setup();
    let id1 = jid(1, 7);
    m.register(1, 7, job(FEE), None, 500).unwrap();
    m.propose_matching(&vec![one_slot(id1, 10)], 500).unwrap();

    // a second job whose executions fall inside the gaps of the first
    let mut j2 = job(2000);
    j2.schedule = sched(1500, 5500, 400, 1000);
    let id2 = jid(2, 8);
    m.register(2, 8, j2, None, 500).unwrap();
    assert!(m.propose_matching(&vec![one_slot(id2, 10)], 500).is_ok());
    assert_eq!(m.job_status(id2), Some(JobStatus::Matched));

    // a third job starting inside the first job's execution window
    let mut j3 = job(2000);
    j3.schedule = sched(1200, 2200, 100, 1000);
    let id3 = jid(3, 9);
    m.register(3, 9, j3, None, 500).unwrap();
    assert_eq!(
        m.propose_matching(&vec![one_slot(id3, 10)], 500),
        Err(Error::ScheduleOverlapInMatch)
    );
    assert_eq!(m.job_status(id3), Some(JobStatus::Open));
    assert_eq!(m.assignment_of(10, id3), None);
}

#[test]
fn scenario_zero_capacity_provider() {
    let mut m = Marketplace::new(100);
    m.allow_asset(1);
    let mut ad = standard_ad();
    ad.storage_capacity = 0;
    m.advertise(10, ad).unwrap();
    let id = jid(1, 7);
    m.register(1, 7, job(FEE), None, 500).unwrap();
    assert_eq!(
        m.propose_matching(&vec![one_slot(id, 10)], 500),
        Err(Error::InsufficientStorageCapacityInMatch)
    );
    assert_eq!(m.assignment_of(10, id), None);
    assert_eq!(m.job_status(id), Some(JobStatus::Open));
}

#[test]
fn empty_matching_is_rejected() {
    let mut m = setup();
    assert_eq!(m.propose_matching(&vec![], 500), Err(Error::EmptyMatching));
}

#[test]
fn overdue_match_is_rejected() {
    let mut m = setup();
    let id = jid(1, 7);
    m.register(1, 7, job(FEE), None, 500).unwrap();
    assert_eq!(m.propose_matching(&vec![one_slot(id, 10)], 1000), Err(Error::OverdueMatch));
    assert_eq!(m.propose_matching(&vec![one_slot(id, 10)], 2000), Err(Error::OverdueMatch));
}

#[test]
fn incorrect_source_count_is_rejected() {
    let mut m = setup();
    let id = jid(1, 7);
    m.register(1, 7, job(FEE), None, 500).unwrap();
    let mm = Match {
        job_id: id,
        sources: vec![
            PlannedExecution { source: 10, start_delay: 0 },
            PlannedExecution { source: 11, start_delay: 0 },
        ],
    };
    assert_eq!(m.propose_matching(&vec![mm], 500), Err(Error::IncorrectSourceCountInMatch));
}

#[test]
fn unknown_job_is_rejected() {
    let mut m = setup();
    assert_eq!(
        m.propose_matching(&vec![one_slot(jid(9, 9), 10)], 500),
        Err(Error::JobRegistrationNotFound)
    );
}

#[test]
fn provider_without_advertisement_is_rejected() {
    let mut m = setup();
    let id = jid(1, 7);
    m.register(1, 7, job(FEE), None, 500).unwrap();
    assert_eq!(
        m.propose_matching(&vec![one_slot(id, 99)], 500),
        Err(Error::AdvertisementNotFound)
    );
}

#[test]
fn provider_without_matching_pricing_is_rejected() {
    let mut m = Marketplace::new(100);
    m.allow_asset(1);
    m.allow_asset(2);
    let mut ad = standard_ad();
    ad.pricing = vec![pricing(2)];
    m.advertise(10, ad).unwrap();
    let id = jid(1, 7);
    m.register(1, 7, job(FEE), None, 500).unwrap();
    assert_eq!(
        m.propose_matching(&vec![one_slot(id, 10)], 500),
        Err(Error::AdvertisementPricingNotFound)
    );
}

#[test]
fn invalid_reward_asset_is_rejected() {
    let mut m = setup();
    let mut j = job(FEE);
    j.reward.asset = 99;
    m.register(1, 7, j, None, 500).unwrap();
    assert_eq!(
        m.propose_matching(&vec![one_slot(jid(1, 7), 10)], 500),
        Err(Error::InvalidAssetId)
    );
}

#[test]
fn scheduling_window_end_is_enforced() {
    let mut m = Marketplace::new(100);
    m.allow_asset(1);
    let mut ad = standard_ad();
    ad.pricing[0].scheduling_window = SchedulingWindow::End(4999);
    m.advertise(10, ad).unwrap();
    let id = jid(1, 7);
    m.register(1, 7, job(FEE), None, 500).unwrap();
    // the job ends at 5000, after the provider's deadline of 4999
    assert_eq!(
        m.propose_matching(&vec![one_slot(id, 10)], 500),
        Err(Error::SchedulingWindowExceededInMatch)
    );
}

#[test]
fn scheduling_window_delta_is_enforced() {
    let mut m = Marketplace::new(100);
    m.allow_asset(1);
    let mut ad = standard_ad();
    ad.pricing[0].scheduling_window = SchedulingWindow::Delta(4000);
    m.advertise(10, ad).unwrap();
    let id = jid(1, 7);
    m.register(1, 7, job(FEE), None, 500).unwrap();
    // now + 4000 = 4500 < 5000
    assert_eq!(
        m.propose_matching(&vec![one_slot(id, 10)], 500),
        Err(Error::SchedulingWindowExceededInMatch)
    );
    // now + 4000 = 4999 still falls short of the job's end at 5000
    assert_eq!(
        m.propose_matching(&vec![one_slot(id, 10)], 999),
        Err(Error::SchedulingWindowExceededInMatch)
    );
    let mut m2 = Marketplace::new(100);
    m2.allow_asset(1);
    let mut ad2 = standard_ad();
    ad2.pricing[0].scheduling_window = SchedulingWindow::Delta(4500);
    m2.advertise(10, ad2).unwrap();
    m2.register(1, 7, job(FEE), None, 500).unwrap();
    assert!(m2.propose_matching(&vec![one_slot(id, 10)], 500).is_ok());
}

#[test]
fn memory_limit_is_enforced() {
    let mut m = setup();
    let mut j = job(FEE);
    j.memory = 101;
    m.register(1, 7, j, None, 500).unwrap();
    assert_eq!(
        m.propose_matching(&vec![one_slot(jid(1, 7), 10)], 500),
        Err(Error::MaxMemoryExceededInMatch)
    );
}

#[test]
fn network_request_quota_is_enforced() {
    let mut m = Marketplace::new(100);
    m.allow_asset(1);
    let mut ad = standard_ad();
    ad.network_request_quota = 1;
    m.advertise(10, ad).unwrap();
    let mut j = job(FEE);
    j.network_requests = 1;
    // duration 500 * quota 1 = 500 < 1 * 1000
    m.register(1, 7, j, None, 500).unwrap();
    assert_eq!(
        m.propose_matching(&vec![one_slot(jid(1, 7), 10)], 500),
        Err(Error::NetworkRequestQuotaExceededInMatch)
    );
}

#[test]
fn source_whitelist_is_enforced() {
    let mut m = setup();
    let mut j = job(FEE);
    j.allowed_sources = Some(vec![99]);
    m.register(1, 7, j, None, 500).unwrap();
    assert_eq!(
        m.propose_matching(&vec![one_slot(jid(1, 7), 10)], 500),
        Err(Error::SourceNotAllowedInMatch)
    );
}

#[test]
fn consumer_whitelist_is_enforced() {
    let mut m = Marketplace::new(100);
    m.allow_asset(1);
    let mut ad = standard_ad();
    ad.allowed_consumers = Some(vec![5]);
    m.advertise(10, ad).unwrap();
    m.register(1, 7, job(FEE), None, 500).unwrap();
    assert_eq!(
        m.propose_matching(&vec![one_slot(jid(1, 7), 10)], 500),
        Err(Error::ConsumerNotAllowedInMatch)
    );
    let mut m2 = Marketplace::new(100);
    m2.allow_asset(1);
    let mut ad2 = standard_ad();
    ad2.allowed_consumers = Some(vec![1]);
    m2.advertise(10, ad2).unwrap();
    m2.register(1, 7, job(FEE), None, 500).unwrap();
    assert!(m2.propose_matching(&vec![one_slot(jid(1, 7), 10)], 500).is_ok());
}

#[test]
fn unverified_source_is_rejected_until_attested() {
    let mut m = setup();
    let mut j = job(FEE);
    j.allow_only_verified_sources = true;
    m.register(1, 7, j, None, 500).unwrap();
    assert_eq!(
        m.propose_matching(&vec![one_slot(jid(1, 7), 10)], 500),
        Err(Error::UnverifiedSourceInMatch)
    );
    m.attest(10);
    assert!(m.propose_matching(&vec![one_slot(jid(1, 7), 10)], 500).is_ok());
}

#[test]
fn insufficient_reward_is_rejected() {
    let mut m = setup();
    let id = jid(1, 7);
    m.register(1, 7, job(FEE - 1), None, 500).unwrap();
    assert_eq!(
        m.propose_matching(&vec![one_slot(id, 10)], 500),
        Err(Error::InsufficientRewardInMatch)
    );
}

#[test]
fn duplicate_source_in_two_slots_is_rejected() {
    let mut m = setup();
    let mut j = job(FEE);
    j.slots = 2;
    m.register(1, 7, j, None, 500).unwrap();
    let mm = Match {
        job_id: jid(1, 7),
        sources: vec![
            PlannedExecution { source: 10, start_delay: 0 },
            PlannedExecution { source: 10, start_delay: 500 },
        ],
    };
    assert_eq!(m.propose_matching(&vec![mm], 500), Err(Error::DuplicateSourceInMatch));
    // the aborted call left nothing behind
    assert_eq!(m.assignment_of(10, jid(1, 7)), None);
    assert_eq!(m.capacity_of(10), Some(100));
}

#[test]
fn mixed_reward_assets_abort_whole_call() {
    let mut m = Marketplace::new(100);
    m.allow_asset(1);
    m.allow_asset(2);
    m.advertise(10, standard_ad()).unwrap();
    let mut ad2 = standard_ad();
    ad2.pricing = vec![pricing(2)];
    m.advertise(11, ad2).unwrap();
    m.register(1, 7, job(FEE), None, 500).unwrap();
    let mut j2 = job(FEE);
    j2.reward.asset = 2;
    m.register(2, 8, j2, None, 500).unwrap();
    let ms = vec![one_slot(jid(1, 7), 10), one_slot(jid(2, 8), 11)];
    assert_eq!(m.propose_matching(&ms, 500), Err(Error::MultipleRewardAssetsInMatch));
    // all-or-nothing: the first job was not matched either
    assert_eq!(m.job_status(jid(1, 7)), Some(JobStatus::Open));
    assert_eq!(m.assignment_of(10, jid(1, 7)), None);
    assert_eq!(m.capacity_of(10), Some(100));
}

#[test]
fn two_jobs_same_asset_accumulate_remainder() {
    let mut m = setup();
    m.advertise(11, standard_ad()).unwrap();
    m.register(1, 7, job(2000), None, 500).unwrap();
    m.register(2, 8, job(3000), None, 500).unwrap();
    let ms = vec![one_slot(jid(1, 7), 10), one_slot(jid(2, 8), 11)];
    let remaining = m.propose_matching(&ms, 500).unwrap();
    assert_eq!(remaining.asset, 1);
    assert_eq!(remaining.amount, (2000 - FEE) * 4 + (3000 - FEE) * 4);
    assert_eq!(m.job_status(jid(1, 7)), Some(JobStatus::Matched));
    assert_eq!(m.job_status(jid(2, 8)), Some(JobStatus::Matched));
}

#[test]
fn advertise_requires_pricing_and_valid_assets() {
    let mut m = Marketplace::new(100);
    m.allow_asset(1);
    let mut ad = standard_ad();
    ad.pricing = vec![];
    assert_eq!(m.advertise(10, ad), Err(Error::EmptyPricing));
    let mut ad2 = standard_ad();
    ad2.pricing = vec![pricing(3)];
    assert_eq!(m.advertise(10, ad2), Err(Error::InvalidAssetId));
    assert!(!m.has_advertisement(10));
    assert_eq!(m.capacity_of(10), None);
}

#[test]
fn advertise_update_adjusts_remaining_capacity() {
    let mut m = setup();
    m.register(1, 7, job(FEE), None, 500).unwrap();
    m.propose_matching(&vec![one_slot(jid(1, 7), 10)], 500).unwrap();
    assert_eq!(m.capacity_of(10), Some(90));
    // growing the advertised total grows the remaining capacity by the delta
    let mut bigger = standard_ad();
    bigger.storage_capacity = 150;
    m.advertise(10, bigger).unwrap();
    assert_eq!(m.capacity_of(10), Some(140));
    // shrinking below what is committed makes it negative
    let mut smaller = standard_ad();
    smaller.storage_capacity = 5;
    m.advertise(10, smaller).unwrap();
    assert_eq!(m.capacity_of(10), Some(-5));
    // a provider with non-positive capacity receives no new matches
    m.register(2, 8, job(2000), None, 500).unwrap();
    assert_eq!(
        m.propose_matching(&vec![one_slot(jid(2, 8), 10)], 500),
        Err(Error::InsufficientStorageCapacityInMatch)
    );
}

#[test]
fn advertise_overwrites_pricing() {
    let mut m = setup();
    let mut ad = standard_ad();
    ad.pricing[0].fee_per_millisecond = 3;
    m.advertise(10, ad).unwrap();
    let p = m.pricing_entry(10, 1).unwrap();
    assert_eq!(p.fee_per_millisecond, 3);
}

#[test]
fn delete_advertisement_blocked_while_matched() {
    let mut m = setup();
    m.register(1, 7, job(FEE), None, 500).unwrap();
    m.propose_matching(&vec![one_slot(jid(1, 7), 10)], 500).unwrap();
    assert_eq!(
        m.delete_advertisement(10),
        Err(Error::CannotDeleteAdvertisementWhileMatched)
    );
    assert!(m.has_advertisement(10));
}

#[test]
fn delete_advertisement_removes_everything() {
    let mut m = setup();
    assert_eq!(m.delete_advertisement(10), Ok(()));
    assert!(!m.has_advertisement(10));
    assert_eq!(m.capacity_of(10), None);
    assert_eq!(m.pricing_entry(10, 1), None);
    assert_eq!(m.delete_advertisement(10), Err(Error::AdvertisementNotFound));
}

#[test]
fn instant_match_at_registration() {
    let mut m = setup();
    let sources = vec![PlannedExecution { source: 10, start_delay: 0 }];
    let locked = m.register(1, 7, job(FEE), Some(sources), 500).unwrap();
    assert_eq!(locked, Reward { asset: 1, amount: FEE * 4 });
    assert_eq!(m.job_status(jid(1, 7)), Some(JobStatus::Matched));
    assert!(m.assignment_of(10, jid(1, 7)).is_some());
    assert_eq!(m.capacity_of(10), Some(90));
}

#[test]
fn failed_instant_match_leaves_no_registration() {
    let mut m = setup();
    let sources = vec![PlannedExecution { source: 99, start_delay: 0 }];
    assert_eq!(
        m.register(1, 7, job(FEE), Some(sources), 500),
        Err(Error::AdvertisementNotFound)
    );
    assert!(!m.has_registration(jid(1, 7)));
    assert_eq!(m.job_status(jid(1, 7)), None);
}
