//! How an import goes on, and what it stores.
//!
//! Each law speaks of what a function was given and of what it gave.
use vstd::prelude::*;
use crate::services::stripe::ChargeTotals;
use crate::tasks::reconcile::{spend_updates, stamp_sql, ImportPhase, SpendUpdate};

verus! {

/// An import that reads the subscriptions and the customers and stores its time
/// comes to its end, whether or not it can read the charges and rebuild the
/// facts. One that cannot do the former fails, and stays failed.
pub proof fn import_goes_on_without_charges(
    phase: ImportPhase,
    finished: bool,
    next: ImportPhase,
)
    requires
        call_ensures(ImportPhase::after, (phase, finished), next),
    ensures
        phase is Charges ==> next is Facts,
        phase is Facts ==> next is Stamp,
        phase is Failed ==> next is Failed,
        phase is Done ==> next is Done,
        finished ==> {
            &&& phase is Subscriptions ==> next is Customers
            &&& phase is Customers ==> next is Charges
            &&& phase is Stamp ==> next is FanOut
            &&& phase is FanOut ==> next is Done
        },
        !finished && (phase is Subscriptions || phase is Customers || phase is Stamp
            || phase is FanOut) ==> next is Failed,
{
}

/// The time of an import is stored, and that of the first one besides where it is
/// to be marked, and only there.
pub proof fn backfill_is_stamped_when_it_is_marked(mark: bool, r: &'static str)
    requires
        call_ensures(stamp_sql, (mark,), r),
    ensures
        mark ==> r@ == "UPDATE stripe_accounts SET last_synced_at = now(), "@
            + "last_backfill_at = now(), "@ + "updated_at = now() WHERE id = $1"@,
        !mark ==> r@ == "UPDATE stripe_accounts SET last_synced_at = now(), "@
            + "updated_at = now() WHERE id = $1"@,
{
    reveal_strlit("UPDATE stripe_accounts SET last_synced_at = now(), ");
    reveal_strlit("last_backfill_at = now(), ");
    reveal_strlit("updated_at = now() WHERE id = $1");
    if mark {
        reveal_strlit(
            "UPDATE stripe_accounts SET last_synced_at = now(), last_backfill_at = now(), updated_at = now() WHERE id = $1",
        );
        assert(r@ =~= "UPDATE stripe_accounts SET last_synced_at = now(), "@
            + "last_backfill_at = now(), "@ + "updated_at = now() WHERE id = $1"@);
    } else {
        reveal_strlit(
            "UPDATE stripe_accounts SET last_synced_at = now(), updated_at = now() WHERE id = $1",
        );
        assert(r@ =~= "UPDATE stripe_accounts SET last_synced_at = now(), "@
            + "updated_at = now() WHERE id = $1"@);
    }
}

/// Each customer with a sum is stored once, with that sum and with how often they
/// paid, and nobody else is.
pub proof fn sums_are_stored_customer_by_customer(
    totals: ChargeTotals,
    r: Vec<SpendUpdate>,
    customer: Seq<char>,
)
    requires
        call_ensures(spend_updates, (&totals,), r),
    ensures
        totals.spend@.dom().contains(customer) <==> exists|i: int|
            0 <= i < r@.len() && (#[trigger] r@[i]).customer_id@ == customer,
        forall|i: int|
            0 <= i < r@.len() && (#[trigger] r@[i]).customer_id@ == customer ==> r@[i].amount_cents
                == totals.spend@[customer] && r@[i].payments == (if totals.count@.dom().contains(
                customer,
            ) {
                totals.count@[customer] as i32
            } else {
                0
            }),
        forall|i: int, j: int|
            0 <= i < j < r@.len() ==> (#[trigger] r@[i]).customer_id@ != (
            #[trigger] r@[j]).customer_id@,
{
    assert(crate::tasks::reconcile::has_update(r@, customer) <==> exists|i: int|
        0 <= i < r@.len() && (#[trigger] r@[i]).customer_id@ == customer);
}

} // verus!
