//! Lookup and mutation helpers for the store's maps. Each helper relates the
//! vector it touches to the [`crate::alist`] reading of it: a lookup returns
//! what `alist_find` names, an upsert rebinds exactly one key, a removal
//! unbinds exactly one key.

use vstd::prelude::*;
use crate::alist::{
    alist_find, alist_unique, alist_upsert, lemma_alist_find_none, lemma_alist_find_push,
    lemma_alist_find_remove, lemma_alist_find_skip, lemma_alist_find_update,
    lemma_alist_unique_push, lemma_alist_upsert_is_push, lemma_alist_upsert_is_update,
};
use crate::store::{AssignmentKey, PricingKey};
use crate::types::{
    AdvertisementRestriction, Assignment, JobId, JobRegistration, JobStatus, PricingVariant,
};

verus! {

/// Whether a plain vector contains a value.
pub(crate) fn contains_u64(v: &Vec<u64>, x: u64) -> (r: bool)
    ensures
        r == v@.contains(x),
{
    let mut i: usize = 0;
    while i < v.len()
        invariant
            i <= v@.len(),
            forall|j: int| 0 <= j < i ==> v@[j] != x,
        decreases v@.len() - i,
    {
        if v[i] == x {
            return true;
        }
        i = i + 1;
    }
    false
}

/// Index of the first occurrence of a value, if any.
pub(crate) fn find_first_u64(v: &Vec<u64>, x: u64) -> (r: Option<usize>)
    ensures
        match r {
            Some(i) => i < v@.len() && v@[i as int] == x && forall|j: int|
                0 <= j < i ==> v@[j] != x,
            None => !v@.contains(x),
        },
{
    let mut i: usize = 0;
    while i < v.len()
        invariant
            i <= v@.len(),
            forall|j: int| 0 <= j < i ==> v@[j] != x,
        decreases v@.len() - i,
    {
        if v[i] == x {
            return Some(i);
        }
        i = i + 1;
    }
    None
}

pub(crate) fn regs_index(v: &Vec<(JobId, JobRegistration)>, id: JobId) -> (r: Option<usize>)
    ensures
        match r {
            Some(i) => i < v@.len() && v@[i as int].0 == id && alist_find(v@, id) == Some(
                v@[i as int].1,
            ) && (forall|j: int| 0 <= j < i ==> v@[j].0 != id),
            None => alist_find(v@, id) is None,
        },
{
    let mut i: usize = 0;
    while i < v.len()
        invariant
            i <= v@.len(),
            forall|j: int| 0 <= j < i ==> v@[j].0 != id,
        decreases v@.len() - i,
    {
        if v[i].0 == id {
            proof {
                lemma_alist_find_skip(v@, i as int, id);
                assert(v@.skip(i as int)[0] == v@[i as int]);
            }
            return Some(i);
        }
        i = i + 1;
    }
    proof {
        lemma_alist_find_skip(v@, i as int, id);
    }
    None
}

pub(crate) fn regs_upsert(v: &mut Vec<(JobId, JobRegistration)>, id: JobId, reg: JobRegistration)
    requires
        alist_unique(old(v)@),
    ensures
        alist_unique(final(v)@),
        alist_find(final(v)@, id) == Some(reg),
        forall|q: JobId| q != id ==> alist_find(final(v)@, q) == alist_find(old(v)@, q),
        final(v)@ == alist_upsert(old(v)@, id, reg),
{
    match regs_index(v, id) {
        Some(i) => {
            v.set(i, (id, reg));
            proof {
                lemma_alist_upsert_is_update(old(v)@, i as int, id, reg);
                assert forall|q: JobId| #[trigger] alist_find(v@, q) == (if q == id {
                    Some(reg)
                } else {
                    alist_find(old(v)@, q)
                }) by {
                    lemma_alist_find_update(old(v)@, i as int, (id, reg), q);
                }
                lemma_alist_find_update(old(v)@, i as int, (id, reg), id);
            }
        },
        None => {
            v.push((id, reg));
            proof {
                lemma_alist_find_none(old(v)@, id);
                lemma_alist_upsert_is_push(old(v)@, id, reg);
                lemma_alist_unique_push(old(v)@, (id, reg));
                assert forall|q: JobId| #[trigger] alist_find(v@, q) == (if q == id {
                    Some(reg)
                } else {
                    alist_find(old(v)@, q)
                }) by {
                    lemma_alist_find_push(old(v)@, (id, reg), q);
                }
            }
        },
    }
}

pub(crate) fn regs_remove(v: &mut Vec<(JobId, JobRegistration)>, id: JobId)
    requires
        alist_unique(old(v)@),
    ensures
        alist_unique(final(v)@),
        alist_find(final(v)@, id) is None,
        forall|q: JobId| q != id ==> alist_find(final(v)@, q) == alist_find(old(v)@, q),
{
    match regs_index(v, id) {
        Some(i) => {
            v.remove(i);
            proof {
                assert forall|q: JobId| #[trigger] alist_find(v@, q) == (if q == id {
                    None
                } else {
                    alist_find(old(v)@, q)
                }) by {
                    lemma_alist_find_remove(old(v)@, i as int, q);
                }
                lemma_alist_find_remove(old(v)@, i as int, id);
            }
        },
        None => {},
    }
}

pub(crate) fn status_index(v: &Vec<(JobId, JobStatus)>, id: JobId) -> (r: Option<usize>)
    ensures
        match r {
            Some(i) => i < v@.len() && v@[i as int].0 == id && alist_find(v@, id) == Some(
                v@[i as int].1,
            ) && (forall|j: int| 0 <= j < i ==> v@[j].0 != id),
            None => alist_find(v@, id) is None,
        },
{
    let mut i: usize = 0;
    while i < v.len()
        invariant
            i <= v@.len(),
            forall|j: int| 0 <= j < i ==> v@[j].0 != id,
        decreases v@.len() - i,
    {
        if v[i].0 == id {
            proof {
                lemma_alist_find_skip(v@, i as int, id);
                assert(v@.skip(i as int)[0] == v@[i as int]);
            }
            return Some(i);
        }
        i = i + 1;
    }
    proof {
        lemma_alist_find_skip(v@, i as int, id);
    }
    None
}

pub(crate) fn status_find(v: &Vec<(JobId, JobStatus)>, id: JobId) -> (r: Option<JobStatus>)
    ensures
        r == alist_find(v@, id),
{
    match status_index(v, id) {
        Some(i) => Some(v[i].1),
        None => None,
    }
}

pub(crate) fn status_upsert(v: &mut Vec<(JobId, JobStatus)>, id: JobId, s: JobStatus)
    requires
        alist_unique(old(v)@),
    ensures
        alist_unique(final(v)@),
        alist_find(final(v)@, id) == Some(s),
        forall|q: JobId| q != id ==> alist_find(final(v)@, q) == alist_find(old(v)@, q),
        final(v)@ == alist_upsert(old(v)@, id, s),
{
    match status_index(v, id) {
        Some(i) => {
            v.set(i, (id, s));
            proof {
                lemma_alist_upsert_is_update(old(v)@, i as int, id, s);
                assert forall|q: JobId| #[trigger] alist_find(v@, q) == (if q == id {
                    Some(s)
                } else {
                    alist_find(old(v)@, q)
                }) by {
                    lemma_alist_find_update(old(v)@, i as int, (id, s), q);
                }
                lemma_alist_find_update(old(v)@, i as int, (id, s), id);
            }
        },
        None => {
            v.push((id, s));
            proof {
                lemma_alist_find_none(old(v)@, id);
                lemma_alist_upsert_is_push(old(v)@, id, s);
                lemma_alist_unique_push(old(v)@, (id, s));
                assert forall|q: JobId| #[trigger] alist_find(v@, q) == (if q == id {
                    Some(s)
                } else {
                    alist_find(old(v)@, q)
                }) by {
                    lemma_alist_find_push(old(v)@, (id, s), q);
                }
            }
        },
    }
}

pub(crate) fn status_remove(v: &mut Vec<(JobId, JobStatus)>, id: JobId)
    requires
        alist_unique(old(v)@),
    ensures
        alist_unique(final(v)@),
        alist_find(final(v)@, id) is None,
        forall|q: JobId| q != id ==> alist_find(final(v)@, q) == alist_find(old(v)@, q),
{
    match status_index(v, id) {
        Some(i) => {
            v.remove(i);
            proof {
                assert forall|q: JobId| #[trigger] alist_find(v@, q) == (if q == id {
                    None
                } else {
                    alist_find(old(v)@, q)
                }) by {
                    lemma_alist_find_remove(old(v)@, i as int, q);
                }
                lemma_alist_find_remove(old(v)@, i as int, id);
            }
        },
        None => {},
    }
}

pub(crate) fn ads_index(v: &Vec<(u64, AdvertisementRestriction)>, p: u64) -> (r: Option<usize>)
    ensures
        match r {
            Some(i) => i < v@.len() && v@[i as int].0 == p && alist_find(v@, p) == Some(
                v@[i as int].1,
            ) && (forall|j: int| 0 <= j < i ==> v@[j].0 != p),
            None => alist_find(v@, p) is None,
        },
{
    let mut i: usize = 0;
    while i < v.len()
        invariant
            i <= v@.len(),
            forall|j: int| 0 <= j < i ==> v@[j].0 != p,
        decreases v@.len() - i,
    {
        if v[i].0 == p {
            proof {
                lemma_alist_find_skip(v@, i as int, p);
                assert(v@.skip(i as int)[0] == v@[i as int]);
            }
            return Some(i);
        }
        i = i + 1;
    }
    proof {
        lemma_alist_find_skip(v@, i as int, p);
    }
    None
}

pub(crate) fn ads_upsert(v: &mut Vec<(u64, AdvertisementRestriction)>, p: u64,
    ad: AdvertisementRestriction)
    requires
        alist_unique(old(v)@),
    ensures
        alist_unique(final(v)@),
        alist_find(final(v)@, p) == Some(ad),
        forall|q: u64| q != p ==> alist_find(final(v)@, q) == alist_find(old(v)@, q),
{
    match ads_index(v, p) {
        Some(i) => {
            v.set(i, (p, ad));
            proof {
                assert forall|q: u64| q != p implies alist_find(v@, q) == alist_find(
                    old(v)@, q) by {
                    lemma_alist_find_update(old(v)@, i as int, (p, ad), q);
                }
                lemma_alist_find_update(old(v)@, i as int, (p, ad), p);
            }
        },
        None => {
            v.push((p, ad));
            proof {
                lemma_alist_unique_push(old(v)@, (p, ad));
                assert forall|q: u64| q != p implies alist_find(v@, q) == alist_find(
                    old(v)@, q) by {
                    lemma_alist_find_push(old(v)@, (p, ad), q);
                }
                lemma_alist_find_push(old(v)@, (p, ad), p);
            }
        },
    }
}

pub(crate) fn ads_remove(v: &mut Vec<(u64, AdvertisementRestriction)>, p: u64)
    requires
        alist_unique(old(v)@),
    ensures
        alist_unique(final(v)@),
        alist_find(final(v)@, p) is None,
        forall|q: u64| q != p ==> alist_find(final(v)@, q) == alist_find(old(v)@, q),
{
    match ads_index(v, p) {
        Some(i) => {
            v.remove(i);
            proof {
                assert forall|q: u64| q != p implies alist_find(v@, q) == alist_find(
                    old(v)@, q) by {
                    lemma_alist_find_remove(old(v)@, i as int, q);
                }
                lemma_alist_find_remove(old(v)@, i as int, p);
            }
        },
        None => {},
    }
}

pub(crate) fn pricing_find(v: &Vec<(PricingKey, PricingVariant)>, p: u64, asset: u64) -> (r:
    Option<PricingVariant>)
    ensures
        r == alist_find(v@, (p, asset)),
{
    let mut i: usize = 0;
    while i < v.len()
        invariant
            i <= v@.len(),
            forall|j: int| 0 <= j < i ==> v@[j].0 != (p, asset),
        decreases v@.len() - i,
    {
        if v[i].0.0 == p && v[i].0.1 == asset {
            proof {
                lemma_alist_find_skip(v@, i as int, (p, asset));
                assert(v@.skip(i as int)[0] == v@[i as int]);
            }
            return Some(v[i].1);
        }
        i = i + 1;
    }
    proof {
        lemma_alist_find_skip(v@, i as int, (p, asset));
    }
    None
}

pub(crate) fn pricing_upsert(v: &mut Vec<(PricingKey, PricingVariant)>, p: u64, asset: u64,
    pv: PricingVariant)
    requires
        alist_unique(old(v)@),
    ensures
        alist_unique(final(v)@),
        alist_find(final(v)@, (p, asset)) == Some(pv),
        forall|k: PricingKey| k != (p, asset) ==> alist_find(final(v)@, k) == alist_find(
            old(v)@, k),
{
    let mut i: usize = 0;
    while i < v.len()
        invariant
            v@ == old(v)@,
            alist_unique(old(v)@),
            i <= v@.len(),
            forall|j: int| 0 <= j < i ==> v@[j].0 != (p, asset),
        decreases v@.len() - i,
    {
        if v[i].0.0 == p && v[i].0.1 == asset {
            v.set(i, ((p, asset), pv));
            proof {
                assert forall|k: PricingKey| k != (p, asset) implies alist_find(v@, k)
                    == alist_find(old(v)@, k) by {
                    lemma_alist_find_update(old(v)@, i as int, ((p, asset), pv), k);
                }
                lemma_alist_find_update(old(v)@, i as int, ((p, asset), pv), (p, asset));
            }
            return;
        }
        i = i + 1;
    }
    proof {
        lemma_alist_find_none(v@, (p, asset));
    }
    v.push(((p, asset), pv));
    proof {
        lemma_alist_unique_push(old(v)@, ((p, asset), pv));
        assert forall|k: PricingKey| k != (p, asset) implies alist_find(v@, k) == alist_find(
            old(v)@, k) by {
            lemma_alist_find_push(old(v)@, ((p, asset), pv), k);
        }
        lemma_alist_find_push(old(v)@, ((p, asset), pv), (p, asset));
    }
}

/// Removes every pricing entry of one provider.
pub(crate) fn pricing_remove_provider(v: &mut Vec<(PricingKey, PricingVariant)>, p: u64)
    requires
        alist_unique(old(v)@),
    ensures
        alist_unique(final(v)@),
        forall|a: u64| alist_find(final(v)@, (p, a)) is None,
        forall|k: PricingKey| k.0 != p ==> alist_find(final(v)@, k) == alist_find(old(v)@, k),
{
    let mut i: usize = 0;
    while i < v.len()
        invariant
            i <= v@.len(),
            alist_unique(v@),
            forall|j: int| 0 <= j < i ==> v@[j].0.0 != p,
            forall|k: PricingKey| k.0 != p ==> alist_find(v@, k) == alist_find(old(v)@, k),
        decreases v@.len() - i,
    {
        if v[i].0.0 == p {
            let ghost prev = v@;
            v.remove(i);
            proof {
                assert forall|k: PricingKey| k.0 != p implies alist_find(v@, k) == alist_find(
                    prev, k) by {
                    lemma_alist_find_remove(prev, i as int, k);
                }
                lemma_alist_find_remove(prev, i as int, prev[i as int].0);
            }
        } else {
            i = i + 1;
        }
    }
    proof {
        assert forall|a: u64| alist_find(v@, (p, a)) is None by {
            lemma_alist_find_none(v@, (p, a));
        }
    }
}

pub(crate) fn caps_find(v: &Vec<(u64, i64)>, p: u64) -> (r: Option<i64>)
    ensures
        r == alist_find(v@, p),
{
    let mut i: usize = 0;
    while i < v.len()
        invariant
            i <= v@.len(),
            forall|j: int| 0 <= j < i ==> v@[j].0 != p,
        decreases v@.len() - i,
    {
        if v[i].0 == p {
            proof {
                lemma_alist_find_skip(v@, i as int, p);
                assert(v@.skip(i as int)[0] == v@[i as int]);
            }
            return Some(v[i].1);
        }
        i = i + 1;
    }
    proof {
        lemma_alist_find_skip(v@, i as int, p);
    }
    None
}

pub(crate) fn caps_upsert(v: &mut Vec<(u64, i64)>, p: u64, c: i64)
    requires
        alist_unique(old(v)@),
    ensures
        alist_unique(final(v)@),
        alist_find(final(v)@, p) == Some(c),
        forall|q: u64| q != p ==> alist_find(final(v)@, q) == alist_find(old(v)@, q),
        final(v)@ == alist_upsert(old(v)@, p, c),
{
    let mut i: usize = 0;
    while i < v.len()
        invariant
            v@ == old(v)@,
            alist_unique(old(v)@),
            i <= v@.len(),
            forall|j: int| 0 <= j < i ==> v@[j].0 != p,
        decreases v@.len() - i,
    {
        if v[i].0 == p {
            v.set(i, (p, c));
            proof {
                lemma_alist_upsert_is_update(old(v)@, i as int, p, c);
                assert forall|q: u64| q != p implies alist_find(v@, q) == alist_find(
                    old(v)@, q) by {
                    lemma_alist_find_update(old(v)@, i as int, (p, c), q);
                }
                lemma_alist_find_update(old(v)@, i as int, (p, c), p);
            }
            return;
        }
        i = i + 1;
    }
    proof {
        lemma_alist_find_none(v@, p);
    }
    v.push((p, c));
    proof {
        lemma_alist_upsert_is_push(old(v)@, p, c);
        lemma_alist_unique_push(old(v)@, (p, c));
        assert forall|q: u64| q != p implies alist_find(v@, q) == alist_find(old(v)@, q) by {
            lemma_alist_find_push(old(v)@, (p, c), q);
        }
        lemma_alist_find_push(old(v)@, (p, c), p);
    }
}

pub(crate) fn caps_remove(v: &mut Vec<(u64, i64)>, p: u64)
    requires
        alist_unique(old(v)@),
    ensures
        alist_unique(final(v)@),
        alist_find(final(v)@, p) is None,
        forall|q: u64| q != p ==> alist_find(final(v)@, q) == alist_find(old(v)@, q),
{
    let mut i: usize = 0;
    while i < v.len()
        invariant
            v@ == old(v)@,
            alist_unique(old(v)@),
            i <= v@.len(),
            forall|j: int| 0 <= j < i ==> v@[j].0 != p,
        decreases v@.len() - i,
    {
        if v[i].0 == p {
            v.remove(i);
            proof {
                assert forall|q: u64| q != p implies alist_find(v@, q) == alist_find(
                    old(v)@, q) by {
                    lemma_alist_find_remove(old(v)@, i as int, q);
                }
                lemma_alist_find_remove(old(v)@, i as int, p);
            }
            return;
        }
        i = i + 1;
    }
    proof {
        lemma_alist_find_none(v@, p);
    }
}

pub(crate) fn asg_find(v: &Vec<(AssignmentKey, Assignment)>, p: u64, id: JobId) -> (r: Option<
    Assignment,
>)
    ensures
        r == alist_find(v@, (p, id)),
{
    let mut i: usize = 0;
    while i < v.len()
        invariant
            i <= v@.len(),
            forall|j: int| 0 <= j < i ==> v@[j].0 != (p, id),
        decreases v@.len() - i,
    {
        if v[i].0.0 == p && v[i].0.1 == id {
            proof {
                lemma_alist_find_skip(v@, i as int, (p, id));
                assert(v@.skip(i as int)[0] == v@[i as int]);
            }
            return Some(v[i].1);
        }
        i = i + 1;
    }
    proof {
        lemma_alist_find_skip(v@, i as int, (p, id));
    }
    None
}

pub(crate) fn asg_upsert(v: &mut Vec<(AssignmentKey, Assignment)>, p: u64, id: JobId,
    a: Assignment)
    requires
        alist_unique(old(v)@),
    ensures
        alist_unique(final(v)@),
        alist_find(final(v)@, (p, id)) == Some(a),
        forall|k: AssignmentKey| k != (p, id) ==> alist_find(final(v)@, k) == alist_find(
            old(v)@, k),
        final(v)@ == alist_upsert(old(v)@, (p, id), a),
{
    let mut i: usize = 0;
    while i < v.len()
        invariant
            v@ == old(v)@,
            alist_unique(old(v)@),
            i <= v@.len(),
            forall|j: int| 0 <= j < i ==> v@[j].0 != (p, id),
        decreases v@.len() - i,
    {
        if v[i].0.0 == p && v[i].0.1 == id {
            v.set(i, ((p, id), a));
            proof {
                lemma_alist_upsert_is_update(old(v)@, i as int, (p, id), a);
                assert forall|k: AssignmentKey| k != (p, id) implies alist_find(v@, k)
                    == alist_find(old(v)@, k) by {
                    lemma_alist_find_update(old(v)@, i as int, ((p, id), a), k);
                }
                lemma_alist_find_update(old(v)@, i as int, ((p, id), a), (p, id));
            }
            return;
        }
        i = i + 1;
    }
    proof {
        lemma_alist_find_none(v@, (p, id));
    }
    v.push(((p, id), a));
    proof {
        lemma_alist_upsert_is_push(old(v)@, (p, id), a);
        lemma_alist_unique_push(old(v)@, ((p, id), a));
        assert forall|k: AssignmentKey| k != (p, id) implies alist_find(v@, k) == alist_find(
            old(v)@, k) by {
            lemma_alist_find_push(old(v)@, ((p, id), a), k);
        }
        lemma_alist_find_push(old(v)@, ((p, id), a), (p, id));
    }
}

pub(crate) fn asg_remove(v: &mut Vec<(AssignmentKey, Assignment)>, p: u64, id: JobId)
    requires
        alist_unique(old(v)@),
    ensures
        alist_unique(final(v)@),
        alist_find(final(v)@, (p, id)) is None,
        forall|k: AssignmentKey| k != (p, id) ==> alist_find(final(v)@, k) == alist_find(
            old(v)@, k),
{
    let mut i: usize = 0;
    while i < v.len()
        invariant
            v@ == old(v)@,
            alist_unique(old(v)@),
            i <= v@.len(),
            forall|j: int| 0 <= j < i ==> v@[j].0 != (p, id),
        decreases v@.len() - i,
    {
        if v[i].0.0 == p && v[i].0.1 == id {
            v.remove(i);
            proof {
                assert forall|k: AssignmentKey| k != (p, id) implies alist_find(v@, k)
                    == alist_find(old(v)@, k) by {
                    lemma_alist_find_remove(old(v)@, i as int, k);
                }
                lemma_alist_find_remove(old(v)@, i as int, (p, id));
            }
            return;
        }
        i = i + 1;
    }
    proof {
        lemma_alist_find_none(v@, (p, id));
    }
}

/// A fresh copy of the assignment map, element for element.
pub(crate) fn copy_asg(v: &Vec<(AssignmentKey, Assignment)>) -> (r: Vec<(
    AssignmentKey,
    Assignment,
)>)
    ensures
        r@ == v@,
{
    let mut r: Vec<(AssignmentKey, Assignment)> = Vec::new();
    let mut i: usize = 0;
    while i < v.len()
        invariant
            i <= v@.len(),
            r@ == v@.take(i as int),
        decreases v@.len() - i,
    {
        r.push(v[i]);
        proof {
            assert(r@ =~= v@.take(i as int + 1));
        }
        i = i + 1;
    }
    proof {
        assert(v@.take(v@.len() as int) =~= v@);
    }
    r
}

/// A fresh copy of the capacity map, element for element.
pub(crate) fn copy_caps(v: &Vec<(u64, i64)>) -> (r: Vec<(u64, i64)>)
    ensures
        r@ == v@,
{
    let mut r: Vec<(u64, i64)> = Vec::new();
    let mut i: usize = 0;
    while i < v.len()
        invariant
            i <= v@.len(),
            r@ == v@.take(i as int),
        decreases v@.len() - i,
    {
        r.push(v[i]);
        proof {
            assert(r@ =~= v@.take(i as int + 1));
        }
        i = i + 1;
    }
    proof {
        assert(v@.take(v@.len() as int) =~= v@);
    }
    r
}

/// A fresh copy of the status map, element for element.
pub(crate) fn copy_stats(v: &Vec<(JobId, JobStatus)>) -> (r: Vec<(JobId, JobStatus)>)
    ensures
        r@ == v@,
{
    let mut r: Vec<(JobId, JobStatus)> = Vec::new();
    let mut i: usize = 0;
    while i < v.len()
        invariant
            i <= v@.len(),
            r@ == v@.take(i as int),
        decreases v@.len() - i,
    {
        r.push(v[i]);
        proof {
            assert(r@ =~= v@.take(i as int + 1));
        }
        i = i + 1;
    }
    proof {
        assert(v@.take(v@.len() as int) =~= v@);
    }
    r
}

} // verus!
