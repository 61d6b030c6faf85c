//! The capacity and advertisement store: providers publish, update and
//! withdraw their capability envelope and pricing table.

use vstd::prelude::*;
use crate::maps::{
    ads_index, ads_remove, ads_upsert, asg_find, caps_find, caps_remove, caps_upsert,
    contains_u64, pricing_find, pricing_remove_provider, pricing_upsert, regs_index, status_find,
};
use crate::store::Marketplace;
use crate::types::{
    Advertisement, AdvertisementRestriction, Assignment, Error, JobId, JobStatus, PricingVariant,
    MAX_ALLOWED_CONSUMERS, MAX_PRICING_VARIANTS,
};

verus! {

/// The pricing variant that ends up stored for `asset` after the variants of
/// `vs` are written in order: the last one priced in `asset`, if any.
pub open spec fn last_variant(vs: Seq<PricingVariant>, asset: u64) -> Option<PricingVariant>
    decreases vs.len(),
{
    if vs.len() <= 0 {
        None
    } else if vs.last().reward_asset == asset {
        Some(vs.last())
    } else {
        last_variant(vs.drop_last(), asset)
    }
}

impl Marketplace {
    /// Why an advertisement would be rejected, if at all: no pricing, a
    /// bounded collection over capacity, or a reward asset the policy
    /// refuses.
    pub open spec fn advertise_error(self, ad: Advertisement) -> Option<Error> {
        if ad.pricing@.len() == 0 {
            Some(Error::EmptyPricing)
        } else if ad.pricing@.len() > MAX_PRICING_VARIANTS {
            Some(Error::LengthExceeded)
        } else if ad.allowed_consumers matches Some(c) && c@.len() > MAX_ALLOWED_CONSUMERS {
            Some(Error::LengthExceeded)
        } else if exists|i: int|
            0 <= i < ad.pricing@.len() && !self.is_valid_asset(ad.pricing@[i].reward_asset) {
            Some(Error::InvalidAssetId)
        } else {
            None
        }
    }

    /// The remaining capacity after a provider re-advertises with
    /// `new_total` bytes: the old remaining capacity plus the change in
    /// total capacity, saturating at the numeric bounds. A first
    /// advertisement starts with its full capacity.
    pub open spec fn capacity_after_advertise(self, provider: u64, new_total: u32) -> int {
        match self.advertisement(provider) {
            Some(o) => {
                let base: int = match self.capacity(provider) {
                    Some(c) => c as int,
                    None => 0,
                };
                let added: int = if base + new_total > i64::MAX {
                    i64::MAX as int
                } else {
                    base + new_total
                };
                if added - o.storage_capacity < i64::MIN {
                    0
                } else {
                    added - o.storage_capacity
                }
            },
            None => new_total as int,
        }
    }

    /// Publishes or updates a provider's advertisement: stores the
    /// capability envelope, adjusts the remaining capacity by the change in
    /// total capacity (it may go negative), and rewrites the pricing table
    /// entry of every asset priced. Rejected advertisements leave the store
    /// untouched.
    pub fn advertise(&mut self, provider: u64, ad: Advertisement) -> (r: Result<(), Error>)
        requires
            old(self).wf(),
        ensures
            final(self).wf(),
            r == (match old(self).advertise_error(ad) {
                Some(e) => Err::<(), Error>(e),
                None => Ok(()),
            }),
            r is Err ==> *final(self) == *old(self),
            r is Ok ==> final(self).advertisement(provider) == Some(
                AdvertisementRestriction {
                    max_memory: ad.max_memory,
                    network_request_quota: ad.network_request_quota,
                    storage_capacity: ad.storage_capacity,
                    allowed_consumers: ad.allowed_consumers,
                },
            ),
            r is Ok ==> final(self).capacity(provider) == Some(
                old(self).capacity_after_advertise(provider, ad.storage_capacity) as i64,
            ),
            r is Ok ==> forall|a: u64|
                final(self).pricing_of(provider, a) == (match last_variant(ad.pricing@, a) {
                    Some(v) => Some(v),
                    None => old(self).pricing_of(provider, a),
                }),
            forall|q: u64| q != provider ==> final(self).advertisement(q) == old(
                self,
            ).advertisement(q),
            forall|q: u64| q != provider ==> final(self).capacity(q) == old(self).capacity(q),
            forall|q: u64, a: u64| q != provider ==> final(self).pricing_of(q, a) == old(
                self,
            ).pricing_of(q, a),
            final(self).registrations_seq() == old(self).registrations_seq(),
            final(self).statuses_seq() == old(self).statuses_seq(),
            final(self).assignments_seq() == old(self).assignments_seq(),
            final(self).attested_seq() == old(self).attested_seq(),
            final(self).valid_assets_seq() == old(self).valid_assets_seq(),
            final(self).tolerance() == old(self).tolerance(),
    {
        if ad.pricing.len() == 0 {
            return Err(Error::EmptyPricing);
        }
        if ad.pricing.len() > MAX_PRICING_VARIANTS {
            return Err(Error::LengthExceeded);
        }
        match &ad.allowed_consumers {
            Some(c) => {
                if c.len() > MAX_ALLOWED_CONSUMERS {
                    return Err(Error::LengthExceeded);
                }
            },
            None => {},
        }
        let mut i: usize = 0;
        while i < ad.pricing.len()
            invariant
                i <= ad.pricing@.len(),
                forall|j: int| 0 <= j < i ==> self.is_valid_asset(ad.pricing@[j].reward_asset),
                *self == *old(self),
                old(self).wf(),
                0 < ad.pricing@.len() <= MAX_PRICING_VARIANTS,
                !(ad.allowed_consumers matches Some(c) && c@.len() > MAX_ALLOWED_CONSUMERS),
            decreases ad.pricing@.len() - i,
        {
            if !contains_u64(&self.valid_assets, ad.pricing[i].reward_asset) {
                return Err(Error::InvalidAssetId);
            }
            i = i + 1;
        }
        // every check passed; commit
        let new_cap: i64 = match ads_index(&self.advertisements, provider) {
            Some(oi) => {
                let old_total = self.advertisements[oi].1.storage_capacity;
                let base = match caps_find(&self.capacities, provider) {
                    Some(c) => c,
                    None => 0,
                };
                let added = match base.checked_add(ad.storage_capacity as i64) {
                    Some(x) => x,
                    None => i64::MAX,
                };
                match added.checked_sub(old_total as i64) {
                    Some(x) => x,
                    None => 0,
                }
            },
            None => ad.storage_capacity as i64,
        };
        caps_upsert(&mut self.capacities, provider, new_cap);
        let Advertisement { max_memory, network_request_quota, storage_capacity,
            allowed_consumers, pricing } = ad;
        ads_upsert(
            &mut self.advertisements,
            provider,
            AdvertisementRestriction { max_memory, network_request_quota, storage_capacity,
                allowed_consumers },
        );
        let ghost mid = *self;
        let mut i: usize = 0;
        while i < pricing.len()
            invariant
                i <= pricing@.len(),
                self.wf(),
                self.registrations_seq() == mid.registrations_seq(),
                self.statuses_seq() == mid.statuses_seq(),
                self.advertisements_seq() == mid.advertisements_seq(),
                self.capacities_seq() == mid.capacities_seq(),
                self.assignments_seq() == mid.assignments_seq(),
                self.attested_seq() == mid.attested_seq(),
                self.valid_assets_seq() == mid.valid_assets_seq(),
                self.tolerance() == mid.tolerance(),
                mid.wf(),
                forall|q: u64, a: u64| q != provider ==> self.pricing_of(q, a)
                    == mid.pricing_of(q, a),
                forall|a: u64| self.pricing_of(provider, a) == (match last_variant(
                    pricing@.take(i as int), a) {
                    Some(v) => Some(v),
                    None => mid.pricing_of(provider, a),
                }),
            decreases pricing@.len() - i,
        {
            let pv = pricing[i];
            let ghost before = *self;
            pricing_upsert(&mut self.pricing, provider, pv.reward_asset, pv);
            proof {
                assert(pricing@.take(i as int + 1).last() == pricing@[i as int]);
                assert(pricing@.take(i as int + 1).drop_last() =~= pricing@.take(i as int));
                assert forall|a: u64| self.pricing_of(provider, a) == (match last_variant(
                    pricing@.take(i as int + 1), a) {
                    Some(v) => Some(v),
                    None => mid.pricing_of(provider, a),
                }) by {
                    if a != pv.reward_asset {
                        assert(self.pricing_of(provider, a) == before.pricing_of(provider, a));
                    }
                }
            }
            i = i + 1;
        }
        proof {
            assert(pricing@.take(pricing@.len() as int) =~= pricing@);
            assert forall|q: u64, a: u64| q != provider implies self.pricing_of(q, a) == old(
                self,
            ).pricing_of(q, a) by {
                assert(self.pricing_of(q, a) == mid.pricing_of(q, a));
                assert(mid.pricing_seq() == old(self).pricing_seq());
            }
        }
        Ok(())
    }

    /// Withdraws a provider's advertisement, pricing and capacity entry.
    /// Fails while any assignment still references the provider, or when
    /// there is nothing to delete; either failure leaves the store
    /// untouched.
    pub fn delete_advertisement(&mut self, provider: u64) -> (r: Result<(), Error>)
        requires
            old(self).wf(),
        ensures
            final(self).wf(),
            r == (if old(self).advertisement(provider) is None {
                Err::<(), Error>(Error::AdvertisementNotFound)
            } else if old(self).provider_matched(provider) {
                Err::<(), Error>(Error::CannotDeleteAdvertisementWhileMatched)
            } else {
                Ok(())
            }),
            r is Err ==> *final(self) == *old(self),
            r is Ok ==> final(self).advertisement(provider) is None,
            r is Ok ==> final(self).capacity(provider) is None,
            r is Ok ==> forall|a: u64| final(self).pricing_of(provider, a) is None,
            forall|q: u64| q != provider ==> final(self).advertisement(q) == old(
                self,
            ).advertisement(q),
            forall|q: u64| q != provider ==> final(self).capacity(q) == old(self).capacity(q),
            forall|q: u64, a: u64| q != provider ==> final(self).pricing_of(q, a) == old(
                self,
            ).pricing_of(q, a),
            final(self).registrations_seq() == old(self).registrations_seq(),
            final(self).statuses_seq() == old(self).statuses_seq(),
            final(self).assignments_seq() == old(self).assignments_seq(),
            final(self).attested_seq() == old(self).attested_seq(),
            final(self).valid_assets_seq() == old(self).valid_assets_seq(),
            final(self).tolerance() == old(self).tolerance(),
    {
        match ads_index(&self.advertisements, provider) {
            Some(_) => {},
            None => {
                return Err(Error::AdvertisementNotFound);
            },
        }
        if self.has_matches(provider) {
            return Err(Error::CannotDeleteAdvertisementWhileMatched);
        }
        pricing_remove_provider(&mut self.pricing, provider);
        caps_remove(&mut self.capacities, provider);
        ads_remove(&mut self.advertisements, provider);
        Ok(())
    }

    /// Whether the provider currently has at least one assignment, matched
    /// or already acknowledged.
    pub fn has_matches(&self, provider: u64) -> (r: bool)
        ensures
            r == self.provider_matched(provider),
    {
        let mut i: usize = 0;
        while i < self.assignments.len()
            invariant
                i <= self.assignments_seq().len(),
                forall|j: int| 0 <= j < i ==> self.assignments_seq()[j].0.0 != provider,
            decreases self.assignments_seq().len() - i,
        {
            if self.assignments[i].0.0 == provider {
                return true;
            }
            i = i + 1;
        }
        false
    }

    /// The status stored for a job.
    pub fn job_status(&self, id: JobId) -> (r: Option<JobStatus>)
        ensures
            r == self.status(id),
    {
        status_find(&self.statuses, id)
    }

    /// The remaining storage budget of a provider.
    pub fn capacity_of(&self, provider: u64) -> (r: Option<i64>)
        ensures
            r == self.capacity(provider),
    {
        caps_find(&self.capacities, provider)
    }

    /// The assignment committed for a provider and a job.
    pub fn assignment_of(&self, provider: u64, id: JobId) -> (r: Option<Assignment>)
        ensures
            r == self.assignment(provider, id),
    {
        asg_find(&self.assignments, provider, id)
    }

    /// Whether a registration is stored for the job.
    pub fn has_registration(&self, id: JobId) -> (r: bool)
        ensures
            r == (self.registration(id) is Some),
    {
        regs_index(&self.registrations, id).is_some()
    }

    /// Whether an advertisement is stored for the provider.
    pub fn has_advertisement(&self, provider: u64) -> (r: bool)
        ensures
            r == (self.advertisement(provider) is Some),
    {
        ads_index(&self.advertisements, provider).is_some()
    }

    /// The pricing a provider stored for one reward asset.
    pub fn pricing_entry(&self, provider: u64, asset: u64) -> (r: Option<PricingVariant>)
        ensures
            r == self.pricing_of(provider, asset),
    {
        pricing_find(&self.pricing, provider, asset)
    }
}

} // verus!
