//! Upcoming renewals among the period's recurring charges.
//!
//! A recurring charge whose date in the period has not yet passed is an
//! upcoming renewal. (Whether a charge is creeping compares money amounts and
//! is decided outside the library.)

use vstd::prelude::*;

verus! {

/// One recurring charge of the period, as far as renewals read it.
#[derive(Debug, Clone, PartialEq)]
pub struct ScheduledCharge {
    pub merchant: String,
    /// The charge's date in this period has already passed.
    pub is_past: bool,
}

/// An upcoming recurring charge (not yet past this period).
#[derive(Debug, Clone, PartialEq)]
pub struct UpcomingRenewal {
    pub merchant: String,
}

/// The merchants of the charges not yet past, in order.
pub open spec fn upcoming_merchants(charges: Seq<ScheduledCharge>) -> Seq<Seq<char>>
    decreases charges.len(),
{
    if charges.len() == 0 {
        seq![]
    } else {
        let prev = upcoming_merchants(charges.drop_last());
        if charges.last().is_past {
            prev
        } else {
            prev.push(charges.last().merchant@)
        }
    }
}

/// The upcoming renewals of the period: every charge not yet past, in order.
pub fn upcoming_renewals(charges: &[ScheduledCharge]) -> (r: Vec<UpcomingRenewal>)
    ensures
        r@.map_values(|u: UpcomingRenewal| u.merchant@) == upcoming_merchants(charges@),
{
    let mut out: Vec<UpcomingRenewal> = Vec::new();
    let mut i: usize = 0;
    while i < charges.len()
        invariant
            0 <= i <= charges.len(),
            out@.map_values(|u: UpcomingRenewal| u.merchant@) == upcoming_merchants(charges@.take(i as int)),
        decreases charges.len() - i,
    {
        proof {
            assert(charges@.take(i + 1).drop_last() =~= charges@.take(i as int));
            assert(charges@.take(i + 1).last() == charges@[i as int]);
        }
        let c = &charges[i];
        let ghost before = out@.map_values(|u: UpcomingRenewal| u.merchant@);
        if !c.is_past {
            out.push(UpcomingRenewal { merchant: c.merchant.clone() });
            assert(out@.map_values(|u: UpcomingRenewal| u.merchant@) =~= before.push(c.merchant@));
        }
        i = i + 1;
    }
    assert(charges@.take(charges.len() as int) =~= charges@);
    out
}

/// One upcoming renewal per charge not yet past, in order, whatever the
/// merchants: the renewals' merchants are those of the charges not yet past,
/// and there are as many renewals as such charges.
pub proof fn law_every_charge_not_yet_past_is_upcoming(charges: Seq<ScheduledCharge>)
    ensures
        upcoming_merchants(charges) == charges.filter(|c: ScheduledCharge| !c.is_past).map_values(
            |c: ScheduledCharge| c.merchant@,
        ),
        upcoming_merchants(charges).len() == charges.filter(|c: ScheduledCharge| !c.is_past).len(),
    decreases charges.len(),
{
    reveal(Seq::filter);
    let pred = |c: ScheduledCharge| !c.is_past;
    let name = |c: ScheduledCharge| c.merchant@;
    if charges.len() == 0 {
        assert(charges.filter(pred).map_values(name) =~= Seq::<Seq<char>>::empty());
    } else {
        law_every_charge_not_yet_past_is_upcoming(charges.drop_last());
        let rest = charges.drop_last().filter(pred);
        let c = charges.last();
        if pred(c) {
            assert(charges.filter(pred) == rest.push(c));
            assert(rest.push(c).map_values(name) =~= rest.map_values(name).push(name(c)));
        } else {
            assert(charges.filter(pred) == rest);
        }
    }
}

} // verus!
