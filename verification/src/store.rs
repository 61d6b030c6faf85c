//! The marketplace store: an explicit state object holding registrations,
//! statuses, advertisements, pricing, capacities and assignments, passed by
//! reference into each operation. Every map is a vector of entries with
//! pairwise-distinct keys, read through the spec functions of [`crate::alist`].

use vstd::prelude::*;
use crate::alist::{alist_find, alist_unique};
use crate::types::{
    AdvertisementRestriction, Assignment, JobId, JobRegistration, JobStatus, PricingVariant,
};

verus! {

/// A provider's pricing is keyed by the provider and the reward asset.
pub type PricingKey = (u64, u64);

/// An assignment is keyed by the provider and the job.
pub type AssignmentKey = (u64, JobId);

/// The shared state of the marketplace. Operations mutate it only in their
/// commit phase: a failed call leaves it untouched.
pub struct Marketplace {
    pub registrations: Vec<(JobId, JobRegistration)>,
    pub statuses: Vec<(JobId, JobStatus)>,
    pub advertisements: Vec<(u64, AdvertisementRestriction)>,
    pub pricing: Vec<(PricingKey, PricingVariant)>,
    pub capacities: Vec<(u64, i64)>,
    pub assignments: Vec<(AssignmentKey, Assignment)>,
    pub attested: Vec<u64>,
    pub valid_assets: Vec<u64>,
    pub report_tolerance: u64,
}

impl Marketplace {
    /// The job registry: job id to registration.
    pub open spec fn registrations_seq(self) -> Seq<(JobId, JobRegistration)> {
        self.registrations@
    }

    /// The lifecycle markers: job id to status.
    pub open spec fn statuses_seq(self) -> Seq<(JobId, JobStatus)> {
        self.statuses@
    }

    /// The advertisement store: provider to capability envelope.
    pub open spec fn advertisements_seq(self) -> Seq<(u64, AdvertisementRestriction)> {
        self.advertisements@
    }

    /// The pricing table: provider and asset to pricing variant.
    pub open spec fn pricing_seq(self) -> Seq<(PricingKey, PricingVariant)> {
        self.pricing@
    }

    /// The remaining storage budget per provider; may be negative.
    pub open spec fn capacities_seq(self) -> Seq<(u64, i64)> {
        self.capacities@
    }

    /// The committed pairings: provider and job to assignment.
    pub open spec fn assignments_seq(self) -> Seq<(AssignmentKey, Assignment)> {
        self.assignments@
    }

    /// Providers that passed the external attestation check.
    pub open spec fn attested_seq(self) -> Seq<u64> {
        self.attested@
    }

    /// Reward assets accepted by the external asset policy.
    pub open spec fn valid_assets_seq(self) -> Seq<u64> {
        self.valid_assets@
    }

    /// By how much a report may trail the agreed execution window.
    pub open spec fn tolerance(self) -> u64 {
        self.report_tolerance
    }

    /// The registration stored for a job.
    pub open spec fn registration(self, id: JobId) -> Option<JobRegistration> {
        alist_find(self.registrations_seq(), id)
    }

    /// The status stored for a job.
    pub open spec fn status(self, id: JobId) -> Option<JobStatus> {
        alist_find(self.statuses_seq(), id)
    }

    /// The capability envelope stored for a provider.
    pub open spec fn advertisement(self, provider: u64) -> Option<AdvertisementRestriction> {
        alist_find(self.advertisements_seq(), provider)
    }

    /// The pricing a provider stored for one reward asset.
    pub open spec fn pricing_of(self, provider: u64, asset: u64) -> Option<PricingVariant> {
        alist_find(self.pricing_seq(), (provider, asset))
    }

    /// The remaining storage budget of a provider.
    pub open spec fn capacity(self, provider: u64) -> Option<i64> {
        alist_find(self.capacities_seq(), provider)
    }

    /// The assignment committed for a provider and a job.
    pub open spec fn assignment(self, provider: u64, id: JobId) -> Option<Assignment> {
        alist_find(self.assignments_seq(), (provider, id))
    }

    /// Whether a provider passed attestation.
    pub open spec fn is_attested(self, provider: u64) -> bool {
        self.attested_seq().contains(provider)
    }

    /// Whether an asset is accepted by the asset policy.
    pub open spec fn is_valid_asset(self, asset: u64) -> bool {
        self.valid_assets_seq().contains(asset)
    }

    /// Whether any assignment references the provider.
    pub open spec fn provider_matched(self, provider: u64) -> bool {
        exists|i: int|
            0 <= i < self.assignments_seq().len() && self.assignments_seq()[i].0.0 == provider
    }

    /// Well-formedness: every map's keys are pairwise distinct, every
    /// stored registration carries a schedule as registration admits it, and
    /// no assignment has met more executions than it has in total.
    /// Constructors establish it and every operation preserves it.
    pub open spec fn wf(self) -> bool {
        &&& alist_unique(self.registrations@)
        &&& alist_unique(self.statuses@)
        &&& alist_unique(self.advertisements@)
        &&& alist_unique(self.pricing@)
        &&& alist_unique(self.capacities@)
        &&& alist_unique(self.assignments@)
        &&& forall|id: JobId|
            #[trigger] alist_find(self.registrations@, id) matches Some(r)
                ==> r.schedule.wf()
        &&& sla_bounded(self.assignments@)
    }

    /// An empty marketplace accepting reports that trail an agreed execution
    /// window by at most `report_tolerance` milliseconds.
    pub fn new(report_tolerance: u64) -> (r: Marketplace)
        ensures
            r.wf(),
            r.registrations_seq().len() == 0,
            r.statuses_seq().len() == 0,
            r.advertisements_seq().len() == 0,
            r.pricing_seq().len() == 0,
            r.capacities_seq().len() == 0,
            r.assignments_seq().len() == 0,
            r.attested_seq().len() == 0,
            r.valid_assets_seq().len() == 0,
            r.tolerance() == report_tolerance,
    {
        Marketplace {
            registrations: Vec::new(),
            statuses: Vec::new(),
            advertisements: Vec::new(),
            pricing: Vec::new(),
            capacities: Vec::new(),
            assignments: Vec::new(),
            attested: Vec::new(),
            valid_assets: Vec::new(),
            report_tolerance,
        }
    }

    /// Records that a provider passed the external attestation check.
    pub fn attest(&mut self, provider: u64)
        requires
            old(self).wf(),
        ensures
            final(self).wf(),
            forall|q: u64| final(self).is_attested(q) <==> (old(self).is_attested(q) || q
                == provider),
            unchanged_but_attestation(*old(self), *final(self)),
    {
        self.attested.push(provider);
        proof {
            assert(self.attested@[self.attested@.len() - 1] == provider);
            assert forall|q: u64| self.attested@.contains(q) implies (old(
                self,
            ).attested_seq().contains(q) || q == provider) by {
                let i = choose|i: int|
                    0 <= i < self.attested@.len() && self.attested@[i] == q;
                if i < self.attested@.len() - 1 {
                    assert(old(self).attested@[i] == q);
                }
            }
            assert forall|q: u64| old(self).attested_seq().contains(q)
                implies self.attested@.contains(q) by {
                let i = choose|i: int|
                    0 <= i < old(self).attested@.len() && old(self).attested@[i] == q;
                assert(self.attested@[i] == q);
            }
        }
    }

    /// Records that the external asset policy accepts a reward asset.
    pub fn allow_asset(&mut self, asset: u64)
        requires
            old(self).wf(),
        ensures
            final(self).wf(),
            forall|a: u64| final(self).is_valid_asset(a) <==> (old(self).is_valid_asset(a) || a
                == asset),
            unchanged_but_assets(*old(self), *final(self)),
    {
        self.valid_assets.push(asset);
        proof {
            assert(self.valid_assets@[self.valid_assets@.len() - 1] == asset);
            assert forall|a: u64| self.valid_assets@.contains(a) implies (old(
                self,
            ).valid_assets_seq().contains(a) || a == asset) by {
                let i = choose|i: int|
                    0 <= i < self.valid_assets@.len() && self.valid_assets@[i] == a;
                if i < self.valid_assets@.len() - 1 {
                    assert(old(self).valid_assets@[i] == a);
                }
            }
            assert forall|a: u64| old(self).valid_assets_seq().contains(a)
                implies self.valid_assets@.contains(a) by {
                let i = choose|i: int|
                    0 <= i < old(self).valid_assets@.len() && old(self).valid_assets@[i] == a;
                assert(self.valid_assets@[i] == a);
            }
        }
    }
}

/// No assignment claims more met executions than its agreed total.
pub open spec fn sla_bounded(asg: Seq<(AssignmentKey, Assignment)>) -> bool {
    forall|k: AssignmentKey|
        #[trigger] alist_find(asg, k) matches Some(a) ==> a.sla.met <= a.sla.total
}

/// Two stores that no observation can tell apart: every map reads the same
/// and the report tolerance is the same.
pub open spec fn stores_equal(a: Marketplace, b: Marketplace) -> bool {
    &&& a.registrations@ == b.registrations@
    &&& a.statuses@ == b.statuses@
    &&& a.advertisements@ == b.advertisements@
    &&& a.pricing@ == b.pricing@
    &&& a.capacities@ == b.capacities@
    &&& a.assignments@ == b.assignments@
    &&& a.attested@ == b.attested@
    &&& a.valid_assets@ == b.valid_assets@
    &&& a.report_tolerance == b.report_tolerance
}

/// Everything except the attestation set is the same in both states.
pub open spec fn unchanged_but_attestation(a: Marketplace, b: Marketplace) -> bool {
    &&& a.registrations_seq() == b.registrations_seq()
    &&& a.statuses_seq() == b.statuses_seq()
    &&& a.advertisements_seq() == b.advertisements_seq()
    &&& a.pricing_seq() == b.pricing_seq()
    &&& a.capacities_seq() == b.capacities_seq()
    &&& a.assignments_seq() == b.assignments_seq()
    &&& a.valid_assets_seq() == b.valid_assets_seq()
    &&& a.tolerance() == b.tolerance()
}

/// Everything except the accepted-asset set is the same in both states.
pub open spec fn unchanged_but_assets(a: Marketplace, b: Marketplace) -> bool {
    &&& a.registrations_seq() == b.registrations_seq()
    &&& a.statuses_seq() == b.statuses_seq()
    &&& a.advertisements_seq() == b.advertisements_seq()
    &&& a.pricing_seq() == b.pricing_seq()
    &&& a.capacities_seq() == b.capacities_seq()
    &&& a.assignments_seq() == b.assignments_seq()
    &&& a.attested_seq() == b.attested_seq()
    &&& a.tolerance() == b.tolerance()
}

} // verus!
