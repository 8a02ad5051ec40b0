//! What an import writes of the objects themselves.
//!
//! Beside the links and the sums, the records hold what Stripe says of each
//! customer and each subscription. An import writes it anew; only the time at
//! which an object was created is kept where Stripe does not say.
use vstd::prelude::*;
use crate::clock::Timestamp;
use crate::services::stripe::{CustomerModel, SubModel};

verus! {

// ---------------------------------------------------------------------------
// Columns
// ---------------------------------------------------------------------------

/// What is stored of a customer object.
pub struct CustomerColumns {
    pub email: Option<Seq<char>>,
    pub name: Option<Seq<char>>,
    pub country: Option<Seq<char>>,
    pub currency: Option<Seq<char>>,
    pub delinquent: bool,
    pub created_at: Option<Timestamp>,
}

/// What is stored of a subscription object.
pub struct SubColumns {
    pub status: Seq<char>,
    pub price_id: Option<Seq<char>>,
    pub product_id: Option<Seq<char>>,
    pub unit_amount_cents: i64,
    pub currency: Option<Seq<char>>,
    pub interval: Option<Seq<char>>,
    pub interval_count: i32,
    pub quantity: i32,
    pub cancel_at_period_end: bool,
    pub current_period_end: Option<Timestamp>,
    pub trial_end: Option<Timestamp>,
    pub started_at: Option<Timestamp>,
    pub created_at: Option<Timestamp>,
}

/// The columns of an account by the ids of the objects.
pub struct Columns {
    pub customers: Map<Seq<char>, CustomerColumns>,
    pub subscriptions: Map<Seq<char>, SubColumns>,
}

/// A time that is given, or else the one that is known.
pub open spec fn given_time(
    given: Option<Timestamp>,
    known: Option<Timestamp>,
) -> Option<Timestamp> {
    if given is Some {
        given
    } else {
        known
    }
}

/// When the stored customer was created, as far as is known.
pub open spec fn customer_created(
    rows: Map<Seq<char>, CustomerColumns>,
    id: Seq<char>,
) -> Option<Timestamp> {
    if rows.dom().contains(id) {
        rows[id].created_at
    } else {
        None
    }
}

/// When the stored subscription was created, as far as is known.
pub open spec fn subscription_created(
    rows: Map<Seq<char>, SubColumns>,
    id: Seq<char>,
) -> Option<Timestamp> {
    if rows.dom().contains(id) {
        rows[id].created_at
    } else {
        None
    }
}

/// The customers after one was written or, where it is deleted, removed.
pub open spec fn write_customer(
    rows: Map<Seq<char>, CustomerColumns>,
    c: CustomerModel,
) -> Map<Seq<char>, CustomerColumns> {
    if c.deleted {
        rows.remove(c.id)
    } else {
        rows.insert(
            c.id,
            CustomerColumns {
                email: c.email,
                name: c.name,
                country: c.country,
                currency: c.currency,
                delinquent: c.delinquent,
                created_at: given_time(c.created_at, customer_created(rows, c.id)),
            },
        )
    }
}

/// The subscriptions after one was written.
pub open spec fn write_subscription(
    rows: Map<Seq<char>, SubColumns>,
    s: SubModel,
) -> Map<Seq<char>, SubColumns> {
    rows.insert(
        s.id,
        SubColumns {
            status: s.status,
            price_id: s.price_id,
            product_id: s.product_id,
            unit_amount_cents: s.unit_amount_cents,
            currency: s.currency,
            interval: s.interval,
            interval_count: s.interval_count,
            quantity: s.quantity,
            cancel_at_period_end: s.cancel_at_period_end,
            current_period_end: s.current_period_end,
            trial_end: s.trial_end,
            started_at: s.started_at,
            created_at: given_time(s.created_at, subscription_created(rows, s.id)),
        },
    )
}

/// The customers after all of the given ones were written, in order.
pub open spec fn write_customers(
    rows: Map<Seq<char>, CustomerColumns>,
    customers: Seq<CustomerModel>,
) -> Map<Seq<char>, CustomerColumns>
    decreases customers.len(),
{
    if customers.len() == 0 {
        rows
    } else {
        write_customer(write_customers(rows, customers.drop_last()), customers.last())
    }
}

/// The subscriptions after all of the given ones were written, in order.
pub open spec fn write_subscriptions(
    rows: Map<Seq<char>, SubColumns>,
    subs: Seq<SubModel>,
) -> Map<Seq<char>, SubColumns>
    decreases subs.len(),
{
    if subs.len() == 0 {
        rows
    } else {
        write_subscription(write_subscriptions(rows, subs.drop_last()), subs.last())
    }
}

/// The customers that came with the subscriptions, in order.
pub open spec fn customers_along(subs: Seq<SubModel>) -> Seq<CustomerModel>
    decreases subs.len(),
{
    if subs.len() == 0 {
        Seq::empty()
    } else {
        match subs.last().customer {
            Some(c) => customers_along(subs.drop_last()).push(c),
            None => customers_along(subs.drop_last()),
        }
    }
}

/// The columns after an import: a subscription is written with the customer that
/// it came with, and the customers after all subscriptions.
pub open spec fn columns_after(
    columns: Columns,
    subs: Seq<SubModel>,
    customers: Seq<CustomerModel>,
) -> Columns {
    Columns {
        customers: write_customers(columns.customers, customers_along(subs) + customers),
        subscriptions: write_subscriptions(columns.subscriptions, subs),
    }
}

// ---------------------------------------------------------------------------
// Writing again
// ---------------------------------------------------------------------------

/// The rows are alike but for the time of creation.
spec fn customers_alike(a: CustomerColumns, b: CustomerColumns) -> bool {
    a == CustomerColumns { created_at: a.created_at, ..b }
}

spec fn subscriptions_alike(a: SubColumns, b: SubColumns) -> bool {
    a == SubColumns { created_at: a.created_at, ..b }
}

/// The customer was not written, or what was written does not depend on what was
/// there before but for the time of creation, which then was kept.
spec fn customer_written(
    a: Map<Seq<char>, CustomerColumns>,
    b: Map<Seq<char>, CustomerColumns>,
    after_a: Map<Seq<char>, CustomerColumns>,
    after_b: Map<Seq<char>, CustomerColumns>,
    id: Seq<char>,
) -> bool {
    ||| {
        &&& after_a.dom().contains(id) == a.dom().contains(id)
        &&& after_b.dom().contains(id) == b.dom().contains(id)
        &&& after_a[id] == a[id]
        &&& after_b[id] == b[id]
    }
    ||| !after_a.dom().contains(id) && !after_b.dom().contains(id)
    ||| {
        &&& after_a.dom().contains(id)
        &&& after_b.dom().contains(id)
        &&& customers_alike(after_a[id], after_b[id])
        &&& after_a[id].created_at == after_b[id].created_at || (after_a[id].created_at
            == customer_created(a, id) && after_b[id].created_at == customer_created(b, id))
    }
}

spec fn subscription_written(
    a: Map<Seq<char>, SubColumns>,
    b: Map<Seq<char>, SubColumns>,
    after_a: Map<Seq<char>, SubColumns>,
    after_b: Map<Seq<char>, SubColumns>,
    id: Seq<char>,
) -> bool {
    ||| {
        &&& after_a.dom().contains(id) == a.dom().contains(id)
        &&& after_b.dom().contains(id) == b.dom().contains(id)
        &&& after_a[id] == a[id]
        &&& after_b[id] == b[id]
    }
    ||| {
        &&& after_a.dom().contains(id)
        &&& after_b.dom().contains(id)
        &&& subscriptions_alike(after_a[id], after_b[id])
        &&& after_a[id].created_at == after_b[id].created_at || (after_a[id].created_at
            == subscription_created(a, id) && after_b[id].created_at == subscription_created(b, id))
    }
}

proof fn lemma_customer_written(
    a: Map<Seq<char>, CustomerColumns>,
    b: Map<Seq<char>, CustomerColumns>,
    customers: Seq<CustomerModel>,
    id: Seq<char>,
)
    ensures
        customer_written(
            a,
            b,
            write_customers(a, customers),
            write_customers(b, customers),
            id,
        ),
    decreases customers.len(),
{
    if customers.len() > 0 {
        lemma_customer_written(a, b, customers.drop_last(), id);
    }
}

proof fn lemma_subscription_written(
    a: Map<Seq<char>, SubColumns>,
    b: Map<Seq<char>, SubColumns>,
    subs: Seq<SubModel>,
    id: Seq<char>,
)
    ensures
        subscription_written(
            a,
            b,
            write_subscriptions(a, subs),
            write_subscriptions(b, subs),
            id,
        ),
    decreases subs.len(),
{
    if subs.len() > 0 {
        lemma_subscription_written(a, b, subs.drop_last(), id);
    }
}

/// To write the same objects again changes no column, whatever was stored before
/// and whatever the objects are.
pub proof fn writing_again_changes_nothing(
    columns: Columns,
    subs: Seq<SubModel>,
    customers: Seq<CustomerModel>,
)
    ensures
        columns_after(columns_after(columns, subs, customers), subs, customers) == columns_after(
            columns,
            subs,
            customers,
        ),
{
    let once = columns_after(columns, subs, customers);
    let twice = columns_after(once, subs, customers);
    assert forall|id: Seq<char>|
        (#[trigger] twice.customers.dom().contains(id)) == once.customers.dom().contains(id) && (
        once.customers.dom().contains(id) ==> twice.customers[id] == once.customers[id]) by {
        lemma_customer_written(
            columns.customers,
            once.customers,
            customers_along(subs) + customers,
            id,
        );
    }
    assert forall|id: Seq<char>|
        (#[trigger] twice.subscriptions.dom().contains(id)) == once.subscriptions.dom().contains(id) && (
        once.subscriptions.dom().contains(id) ==> twice.subscriptions[id] == once.subscriptions[id]) by {
        lemma_subscription_written(columns.subscriptions, once.subscriptions, subs, id);
    }
    assert(twice.customers =~= once.customers);
    assert(twice.subscriptions =~= once.subscriptions);
}

} // verus!
