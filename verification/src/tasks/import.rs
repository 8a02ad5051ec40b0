//! What an import leaves behind.
//!
//! The records of an account say whom each customer and each subscription is
//! linked to and what each customer paid. An import stores every subscription,
//! then every customer, then what the charges come to, and notes the members
//! whose facts are to be rebuilt. To import the same again changes nothing.
use vstd::prelude::*;
use crate::services::ingest::{customer_link, own_link, resolved, subscription_link};
use crate::services::stripe::{
    first_of, payments, spent, subscription_fields, ChargeTotals, CustomerModel, SubModel,
};
use crate::services::stripe_wire::{RawChargeModel, RawSubscriptionModel};
use crate::tasks::columns::{columns_after, writing_again_changes_nothing, Columns};
use crate::tasks::reconcile::{has_update, updates_of, SpendUpdate};

verus! {

// ---------------------------------------------------------------------------
// Records
// ---------------------------------------------------------------------------

/// What is stored of a customer.
pub struct CustomerRecord {
    pub member: Option<Seq<char>>,
    pub spend: int,
    pub payments: i32,
}

/// What is stored of a subscription.
pub struct SubRecord {
    pub customer: Option<Seq<char>>,
    pub member: Option<Seq<char>>,
}

/// The records of an account by the ids of the objects, and the members that
/// were touched.
pub struct Records {
    pub customers: Map<Seq<char>, CustomerRecord>,
    pub subscriptions: Map<Seq<char>, SubRecord>,
    pub touched: Set<Seq<char>>,
}

/// The member of a customer's record.
pub open spec fn customer_row(r: Records, id: Seq<char>) -> Option<Seq<char>> {
    if r.customers.dom().contains(id) {
        r.customers[id].member
    } else {
        None
    }
}

/// The member of a subscription's record.
pub open spec fn subscription_row(r: Records, id: Seq<char>) -> Option<Seq<char>> {
    if r.subscriptions.dom().contains(id) {
        r.subscriptions[id].member
    } else {
        None
    }
}

/// The subscription is one of the customer's and has a member.
pub open spec fn linked_to(r: Records, customer: Seq<char>, id: Seq<char>) -> bool {
    &&& r.subscriptions.dom().contains(id)
    &&& r.subscriptions[id].customer == Some(customer)
    &&& r.subscriptions[id].member is Some
}

/// The choice is the member of some linked subscription of the customer, and
/// none where there is no such subscription.
pub open spec fn right_pick(
    pick: spec_fn(Records, Seq<char>) -> Option<Seq<char>>,
    r: Records,
    customer: Seq<char>,
) -> bool {
    match pick(r, customer) {
        Some(m) => exists|id: Seq<char>| #[trigger]
            linked_to(r, customer, id) && r.subscriptions[id].member == Some(m),
        None => forall|id: Seq<char>| !#[trigger] linked_to(r, customer, id),
    }
}

/// The database chooses one of a customer's linked subscriptions, whichever.
pub open spec fn picks_a_member(pick: spec_fn(Records, Seq<char>) -> Option<Seq<char>>) -> bool {
    forall|r: Records, customer: Seq<char>| #[trigger] right_pick(pick, r, customer)
}

// ---------------------------------------------------------------------------
// Storing
// ---------------------------------------------------------------------------

/// The member that a customer is found to be.
pub open spec fn found_customer(
    r: Records,
    c: CustomerModel,
    key: Seq<char>,
    pick: spec_fn(Records, Seq<char>) -> Option<Seq<char>>,
) -> Option<Seq<char>> {
    customer_link(c, key, pick(r, c.id))
}

/// The subscriptions of a customer that have no member get the customer's.
pub open spec fn given_member(
    subscriptions: Map<Seq<char>, SubRecord>,
    customer: Seq<char>,
    m: Seq<char>,
) -> Map<Seq<char>, SubRecord> {
    subscriptions.map_values(
        |s: SubRecord|
            if s.customer == Some(customer) && s.member is None {
                SubRecord { customer: s.customer, member: Some(m) }
            } else {
                s
            },
    )
}

/// The records after a customer was stored. A deleted one is removed; a known
/// member and what was paid are kept.
pub open spec fn after_customer(
    r: Records,
    c: CustomerModel,
    key: Seq<char>,
    pick: spec_fn(Records, Seq<char>) -> Option<Seq<char>>,
) -> Records {
    if c.deleted {
        Records { customers: r.customers.remove(c.id), ..r }
    } else {
        let found = found_customer(r, c, key, pick);
        let known = r.customers.dom().contains(c.id);
        Records {
            customers: r.customers.insert(
                c.id,
                CustomerRecord {
                    member: first_of(found, customer_row(r, c.id)),
                    spend: if known {
                        r.customers[c.id].spend
                    } else {
                        0
                    },
                    payments: if known {
                        r.customers[c.id].payments
                    } else {
                        0
                    },
                },
            ),
            subscriptions: match found {
                Some(m) => given_member(r.subscriptions, c.id, m),
                None => r.subscriptions,
            },
            touched: r.touched,
        }
    }
}

/// The records after the customer that a subscription came with was stored.
pub open spec fn after_its_customer(
    r: Records,
    s: SubModel,
    key: Seq<char>,
    pick: spec_fn(Records, Seq<char>) -> Option<Seq<char>>,
) -> Records {
    match s.customer {
        Some(c) => after_customer(r, c, key, pick),
        None => r,
    }
}

/// The member that a subscription is found to be.
pub open spec fn found_subscription(
    r: Records,
    s: SubModel,
    key: Seq<char>,
    pick: spec_fn(Records, Seq<char>) -> Option<Seq<char>>,
) -> Option<Seq<char>> {
    let mid = after_its_customer(r, s, key, pick);
    let stored = match s.customer {
        Some(c) => found_customer(r, c, key, pick),
        None => None,
    };
    let row = match s.customer_id {
        Some(c) => customer_row(mid, c),
        None => None,
    };
    first_of(subscription_link(s, key, None, stored, row), subscription_row(mid, s.id))
}

/// The records after a subscription was stored, with the customer that it came
/// with. A customer without a member gets the subscription's.
pub open spec fn after_subscription(
    r: Records,
    s: SubModel,
    key: Seq<char>,
    pick: spec_fn(Records, Seq<char>) -> Option<Seq<char>>,
) -> Records {
    let mid = after_its_customer(r, s, key, pick);
    let found = found_subscription(r, s, key, pick);
    Records {
        customers: match s.customer_id {
            Some(c) => if found is Some && mid.customers.dom().contains(c)
                && mid.customers[c].member is None {
                mid.customers.insert(c, CustomerRecord { member: found, ..mid.customers[c] })
            } else {
                mid.customers
            },
            None => mid.customers,
        },
        subscriptions: mid.subscriptions.insert(
            s.id,
            SubRecord { customer: s.customer_id, member: found },
        ),
        touched: mid.touched,
    }
}

/// The records with a member noted, where there is one.
pub open spec fn with_touched(r: Records, member: Option<Seq<char>>) -> Records {
    match member {
        Some(m) => Records { touched: r.touched.insert(m), ..r },
        None => r,
    }
}

/// The records after all subscriptions were stored.
pub open spec fn after_subscriptions(
    r: Records,
    subs: Seq<SubModel>,
    key: Seq<char>,
    pick: spec_fn(Records, Seq<char>) -> Option<Seq<char>>,
) -> Records
    decreases subs.len(),
{
    if subs.len() == 0 {
        r
    } else {
        let before = after_subscriptions(r, subs.drop_last(), key, pick);
        with_touched(
            after_subscription(before, subs.last(), key, pick),
            found_subscription(before, subs.last(), key, pick),
        )
    }
}

/// The records after all customers were stored.
pub open spec fn after_customers(
    r: Records,
    customers: Seq<CustomerModel>,
    key: Seq<char>,
    pick: spec_fn(Records, Seq<char>) -> Option<Seq<char>>,
) -> Records
    decreases customers.len(),
{
    if customers.len() == 0 {
        r
    } else {
        let before = after_customers(r, customers.drop_last(), key, pick);
        with_touched(
            after_customer(before, customers.last(), key, pick),
            found_customer(before, customers.last(), key, pick),
        )
    }
}

/// A customer with a charge that counts is linked to the member.
pub open spec fn paid_as(
    r: Records,
    charges: Seq<RawChargeModel>,
    customer: Seq<char>,
    m: Seq<char>,
) -> bool {
    &&& r.customers.dom().contains(customer)
    &&& r.customers[customer].member == Some(m)
    &&& payments(charges, customer) > 0
}

/// The records after what the charges come to was stored in place of what was
/// stored before.
pub open spec fn after_charges(r: Records, charges: Seq<RawChargeModel>) -> Records {
    Records {
        customers: Map::new(
            |c: Seq<char>| r.customers.dom().contains(c),
            |c: Seq<char>|
                CustomerRecord {
                    member: r.customers[c].member,
                    spend: spent(charges, c),
                    payments: payments(charges, c) as i32,
                },
        ),
        subscriptions: r.subscriptions,
        touched: r.touched.union(
            Set::new(|m: Seq<char>| exists|c: Seq<char>| #[trigger] paid_as(r, charges, c, m)),
        ),
    }
}

/// The records with nobody touched, as an import finds them.
pub open spec fn untouched(r: Records) -> Records {
    Records { touched: Set::empty(), ..r }
}

/// The records after an import. There are no charges where the key may not read
/// them; what was stored of them is then kept.
pub open spec fn imported(
    r: Records,
    subs: Seq<SubModel>,
    customers: Seq<CustomerModel>,
    charges: Option<Seq<RawChargeModel>>,
    key: Seq<char>,
    pick: spec_fn(Records, Seq<char>) -> Option<Seq<char>>,
) -> Records {
    let stored = after_customers(
        after_subscriptions(untouched(r), subs, key, pick),
        customers,
        key,
        pick,
    );
    match charges {
        Some(list) => after_charges(stored, list),
        None => stored,
    }
}

/// The updates that are stored are what the charges come to: each customer with
/// an update gets what they paid and how often, and the others paid nothing.
pub proof fn updates_are_what_was_paid(
    updates: Seq<SpendUpdate>,
    totals: ChargeTotals,
    charges: Seq<RawChargeModel>,
)
    requires
        totals.totals_of(charges),
        updates_of(updates, totals),
    ensures
        forall|i: int|
            0 <= i < updates.len() ==> {
                let u = #[trigger] updates[i];
                &&& u.amount_cents == spent(charges, u.customer_id@)
                &&& u.payments == payments(charges, u.customer_id@) as i32
                &&& payments(charges, u.customer_id@) > 0
            },
        forall|c: Seq<char>|
            !#[trigger] has_update(updates, c) ==> spent(charges, c) == 0 && payments(charges, c)
                == 0,
{
    assert forall|c: Seq<char>| !#[trigger] has_update(updates, c) implies spent(charges, c) == 0
        && payments(charges, c) == 0 by {
        assert(totals.spend@.dom().contains(c) <==> payments(charges, c) > 0);
        crate::services::stripe::lemma_payments_nonnegative(charges, c);
    }
}

// ---------------------------------------------------------------------------
// What Stripe answers
// ---------------------------------------------------------------------------

/// The customer that a subscription came with is its customer.
pub open spec fn names_its_customer(s: SubModel) -> bool {
    s.customer matches Some(c) ==> s.customer_id == Some(c.id)
}

/// A subscription that was read names its customer.
pub proof fn read_subscription_names_its_customer(s: RawSubscriptionModel)
    ensures
        names_its_customer(subscription_fields(s)),
{
}

/// An id stands for one object.
pub open spec fn one_object_each(subs: Seq<SubModel>, customers: Seq<CustomerModel>) -> bool {
    &&& forall|i: int, j: int|
        0 <= i < j < subs.len() && (#[trigger] subs[i]).id == (#[trigger] subs[j]).id ==> subs[i]
            == subs[j]
    &&& forall|i: int, j: int|
        0 <= i < j < customers.len() && (#[trigger] customers[i]).id == (
        #[trigger] customers[j]).id ==> customers[i] == customers[j]
}

/// The customer is among those that were listed.
pub open spec fn is_listed(customers: Seq<CustomerModel>, id: Seq<char>) -> bool {
    exists|j: int| 0 <= j < customers.len() && (#[trigger] customers[j]).id == id
}

/// Some subscription came with the customer.
pub open spec fn came_along(subs: Seq<SubModel>, id: Seq<char>) -> bool {
    exists|i: int|
        0 <= i < subs.len() && ((#[trigger] subs[i]).customer matches Some(c) && c.id == id)
}

/// The customer was read, and is deleted.
pub open spec fn is_deleted(
    subs: Seq<SubModel>,
    customers: Seq<CustomerModel>,
    id: Seq<char>,
) -> bool {
    ||| exists|i: int|
        0 <= i < subs.len() && ((#[trigger] subs[i]).customer matches Some(c) && c.id == id
            && c.deleted)
    ||| exists|j: int|
        0 <= j < customers.len() && (#[trigger] customers[j]).id == id && customers[j].deleted
}

/// The objects agree on which customers are deleted.
pub open spec fn agree_on_deleted(subs: Seq<SubModel>, customers: Seq<CustomerModel>) -> bool {
    &&& forall|i: int|
        0 <= i < subs.len() ==> ((#[trigger] subs[i]).customer matches Some(c) ==> c.deleted
            == is_deleted(subs, customers, c.id))
    &&& forall|j: int|
        0 <= j < customers.len() ==> (#[trigger] customers[j]).deleted == is_deleted(
            subs,
            customers,
            customers[j].id,
        )
}

/// The customer of each subscription was listed, or is deleted.
pub open spec fn customers_complete(
    subs: Seq<SubModel>,
    customers: Seq<CustomerModel>,
) -> bool {
    forall|i: int|
        0 <= i < subs.len() ==> ((#[trigger] subs[i]).customer_id matches Some(c) ==> is_listed(
            customers,
            c,
        ) || is_deleted(subs, customers, c))
}

/// Where the customer has a member, so have its subscriptions: those that were
/// read and, if one of them came with the customer, all that are stored.
pub open spec fn nothing_open(r: Records, subs: Seq<SubModel>, customer: Seq<char>) -> bool {
    customer_row(r, customer) is Some ==> {
        &&& forall|i: int|
            0 <= i < subs.len() && (#[trigger] subs[i]).customer_id == Some(customer)
                ==> subscription_row(r, subs[i].id) is Some
        &&& came_along(subs, customer) ==> forall|x: Seq<char>| #[trigger]
            r.subscriptions.dom().contains(x) && r.subscriptions[x].customer == Some(customer)
                ==> r.subscriptions[x].member is Some
    }
}

/// Nothing is open of a customer that was not listed, though it is not deleted.
pub open spec fn nothing_left_open(
    r: Records,
    subs: Seq<SubModel>,
    customers: Seq<CustomerModel>,
) -> bool {
    forall|c: Seq<char>|
        !is_listed(customers, c) && !is_deleted(subs, customers, c) ==> #[trigger] nothing_open(
            r,
            subs,
            c,
        )
}

/// Where the customer of each subscription was listed or is deleted, nothing is
/// left open.
pub proof fn complete_answers_leave_nothing_open(
    r: Records,
    subs: Seq<SubModel>,
    customers: Seq<CustomerModel>,
)
    requires
        customers_complete(subs, customers),
        forall|i: int| 0 <= i < subs.len() ==> names_its_customer(#[trigger] subs[i]),
    ensures
        nothing_left_open(r, subs, customers),
{
    assert forall|c: Seq<char>|
        !is_listed(customers, c) && !is_deleted(subs, customers, c) implies #[trigger] nothing_open(
        r,
        subs,
        c,
    ) by {
        assert(!came_along(subs, c)) by {
            if came_along(subs, c) {
                let i = choose|i: int|
                    0 <= i < subs.len() && ((#[trigger] subs[i]).customer matches Some(o) && o.id
                        == c);
                assert(names_its_customer(subs[i]));
            }
        }
    }
}

/// No other member than the given one is named.
pub open spec fn names(m: Option<Seq<char>>, who: Seq<char>) -> bool {
    m is None || m == Some(who)
}

/// The records of a customer name at most one member.
pub open spec fn rows_name_one(r: Records, who: Map<Seq<char>, Seq<char>>) -> bool {
    &&& forall|c: Seq<char>| #[trigger]
        r.customers.dom().contains(c) ==> names(r.customers[c].member, who[c])
    &&& forall|x: Seq<char>| #[trigger]
        r.subscriptions.dom().contains(x) ==> (r.subscriptions[x].customer matches Some(c)
            ==> names(r.subscriptions[x].member, who[c]))
}

/// The stored subscription names no other member than its customer's. If it was
/// another customer's when it was stored, then that one's member is the same.
pub open spec fn stored_names_one(
    r: Records,
    s: SubModel,
    who: Map<Seq<char>, Seq<char>>,
) -> bool {
    r.subscriptions.dom().contains(s.id) ==> (s.customer_id matches Some(c) ==> {
        &&& names(r.subscriptions[s.id].member, who[c])
        &&& r.subscriptions[s.id].customer matches Some(before) ==> who[before] == who[c]
    })
}

/// The metadata of a customer name at most one member.
pub open spec fn customer_names_one(
    c: CustomerModel,
    key: Seq<char>,
    who: Map<Seq<char>, Seq<char>>,
) -> bool {
    names(resolved(c.metadata, key), who[c.id])
}

/// The metadata of a customer's subscription, and of the customer that came with
/// it, name at most one member.
pub open spec fn subscription_names_one(
    s: SubModel,
    key: Seq<char>,
    who: Map<Seq<char>, Seq<char>>,
) -> bool {
    &&& s.customer_id matches Some(c) ==> names(resolved(s.metadata, key), who[c])
    &&& s.customer matches Some(c) ==> customer_names_one(c, key, who)
}

/// All that is stored and read of a customer names at most one member: `who`
/// says which.
pub open spec fn one_member_each(
    r: Records,
    subs: Seq<SubModel>,
    customers: Seq<CustomerModel>,
    key: Seq<char>,
    who: Map<Seq<char>, Seq<char>>,
) -> bool {
    &&& rows_name_one(r, who)
    &&& forall|i: int| 0 <= i < subs.len() ==> stored_names_one(r, #[trigger] subs[i], who)
    &&& forall|i: int| 0 <= i < subs.len() ==> subscription_names_one(#[trigger] subs[i], key, who)
    &&& forall|j: int|
        0 <= j < customers.len() ==> customer_names_one(#[trigger] customers[j], key, who)
}

/// What was read is of one piece.
pub open spec fn answers_fit(subs: Seq<SubModel>, customers: Seq<CustomerModel>) -> bool {
    &&& forall|i: int| 0 <= i < subs.len() ==> names_its_customer(#[trigger] subs[i])
    &&& one_object_each(subs, customers)
    &&& agree_on_deleted(subs, customers)
}

// ---------------------------------------------------------------------------
// The first import
// ---------------------------------------------------------------------------

proof fn lemma_after_customer(
    r: Records,
    c: CustomerModel,
    key: Seq<char>,
    pick: spec_fn(Records, Seq<char>) -> Option<Seq<char>>,
    who: Map<Seq<char>, Seq<char>>,
)
    requires
        rows_name_one(r, who),
        picks_a_member(pick),
        customer_names_one(c, key, who),
    ensures
        ({
            let n = after_customer(r, c, key, pick);
            let found = found_customer(r, c, key, pick);
            &&& rows_name_one(n, who)
            &&& names(found, who[c.id])
            &&& n.touched == r.touched
            &&& n.subscriptions.dom() == r.subscriptions.dom()
            &&& forall|x: Seq<char>| #[trigger]
                r.subscriptions.dom().contains(x) ==> n.subscriptions[x].customer
                    == r.subscriptions[x].customer && (n.subscriptions[x] == r.subscriptions[x] || (
                r.subscriptions[x].customer == Some(c.id) && n.subscriptions[x].member is Some
                    && !c.deleted))
            &&& forall|k: Seq<char>|
                k != c.id ==> (#[trigger] n.customers.dom().contains(k)
                    <==> r.customers.dom().contains(k)) && n.customers[k] == r.customers[k]
            &&& c.deleted ==> !n.customers.dom().contains(c.id) && found is None && n.subscriptions
                == r.subscriptions
            &&& !c.deleted ==> n.customers.dom().contains(c.id) && n.customers[c.id].member
                == first_of(found, customer_row(r, c.id))
            &&& !c.deleted && found is Some ==> forall|x: Seq<char>| #[trigger]
                n.subscriptions.dom().contains(x) && n.subscriptions[x].customer == Some(c.id)
                    ==> n.subscriptions[x].member is Some
            &&& !c.deleted && found is None ==> {
                &&& resolved(c.metadata, key) is None
                &&& n.subscriptions == r.subscriptions
                &&& forall|x: Seq<char>| !#[trigger] linked_to(r, c.id, x)
            }
        }),
{
    let n = after_customer(r, c, key, pick);
    let found = found_customer(r, c, key, pick);
    assert(right_pick(pick, r, c.id));
    match pick(r, c.id) {
        Some(m) => {
            let x = choose|x: Seq<char>| #[trigger]
                linked_to(r, c.id, x) && r.subscriptions[x].member == Some(m);
            assert(r.subscriptions.dom().contains(x));
        },
        None => {},
    }
    assert(n.subscriptions.dom() =~= r.subscriptions.dom());
    assert forall|x: Seq<char>| #[trigger] n.subscriptions.dom().contains(x) implies (
    n.subscriptions[x].customer matches Some(k) ==> names(n.subscriptions[x].member, who[k])) by {
        assert(r.subscriptions.dom().contains(x));
    }
    assert forall|k: Seq<char>| #[trigger] n.customers.dom().contains(k) implies names(
        n.customers[k].member,
        who[k],
    ) by {
        if k != c.id {
            assert(r.customers.dom().contains(k));
        } else if r.customers.dom().contains(c.id) {
        }
    }
}

proof fn lemma_after_subscription(
    r: Records,
    s: SubModel,
    key: Seq<char>,
    pick: spec_fn(Records, Seq<char>) -> Option<Seq<char>>,
    who: Map<Seq<char>, Seq<char>>,
)
    requires
        rows_name_one(r, who),
        picks_a_member(pick),
        names_its_customer(s),
        subscription_names_one(s, key, who),
        stored_names_one(r, s, who),
    ensures
        ({
            let n = after_subscription(r, s, key, pick);
            let found = found_subscription(r, s, key, pick);
            &&& rows_name_one(n, who)
            &&& n.touched == r.touched
            &&& n.subscriptions.dom() == r.subscriptions.dom().insert(s.id)
            &&& n.subscriptions[s.id] == (SubRecord { customer: s.customer_id, member: found })
            &&& own_link(s, key) is Some ==> found == own_link(s, key)
            &&& forall|x: Seq<char>| #[trigger]
                r.subscriptions.dom().contains(x) && x != s.id ==> n.subscriptions[x].customer
                    == r.subscriptions[x].customer && (n.subscriptions[x] == r.subscriptions[x] || (
                n.subscriptions[x].member is Some && (s.customer matches Some(c) && !c.deleted
                    && r.subscriptions[x].customer == Some(c.id))))
            &&& forall|k: Seq<char>|
                s.customer_id != Some(k) ==> (#[trigger] n.customers.dom().contains(k)
                    <==> r.customers.dom().contains(k)) && n.customers[k] == r.customers[k]
            &&& s.customer matches Some(c) ==> (n.customers.dom().contains(c.id) <==> !c.deleted)
            &&& forall|k: Seq<char>| #[trigger]
                r.customers.dom().contains(k) && !(s.customer matches Some(c) && c.deleted && c.id
                    == k) ==> n.customers.dom().contains(k) && (r.customers[k].member is Some
                    ==> n.customers[k].member is Some)
            &&& s.customer matches Some(c) ==> (!c.deleted && customer_row(n, c.id) is None
                ==> resolved(c.metadata, key) is None && forall|x: Seq<char>|
                !#[trigger] linked_to(n, c.id, x))
            &&& s.customer_id matches Some(k) ==> {
                &&& n.customers.dom().contains(k) ==> r.customers.dom().contains(k) || (s.customer
                    matches Some(c) && !c.deleted)
                &&& n.customers.dom().contains(k) ==> (n.customers[k].member is Some <==> found is Some)
            }
        }),
{
    let mid = after_its_customer(r, s, key, pick);
    let found = found_subscription(r, s, key, pick);
    let n = after_subscription(r, s, key, pick);
    match s.customer {
        Some(c) => {
            lemma_after_customer(r, c, key, pick, who);
        },
        None => {},
    }
    assert(rows_name_one(mid, who));
    assert(mid.subscriptions.dom() == r.subscriptions.dom());
    assert(n.subscriptions.dom() =~= r.subscriptions.dom().insert(s.id));
    if mid.subscriptions.dom().contains(s.id) {
        assert(r.subscriptions.dom().contains(s.id));
    }
    match s.customer_id {
        Some(k) => {
            if mid.customers.dom().contains(k) {
                assert(names(mid.customers[k].member, who[k]));
            }
            assert(names(found, who[k]));
        },
        None => {},
    }
    assert forall|x: Seq<char>| #[trigger] n.subscriptions.dom().contains(x) implies (
    n.subscriptions[x].customer matches Some(k) ==> names(n.subscriptions[x].member, who[k])) by {
        if x != s.id {
            assert(mid.subscriptions.dom().contains(x));
        }
    }
    assert forall|k: Seq<char>| #[trigger] n.customers.dom().contains(k) implies names(
        n.customers[k].member,
        who[k],
    ) by {
        assert(mid.customers.dom().contains(k));
    }
    match s.customer {
        Some(c) => {
            assert(s.customer_id == Some(c.id));
            if !c.deleted && customer_row(n, c.id) is None {
                assert(mid.customers.dom().contains(c.id));
                assert(found is None);
                assert(found_customer(r, c, key, pick) is None);
                assert forall|x: Seq<char>| !#[trigger] linked_to(n, c.id, x) by {
                    assert(!linked_to(r, c.id, x));
                }
            }
        },
        None => {},
    }
}

/// A subscription that shares its member with no customer's record: it has no
/// customer, or a deleted one.
spec fn stands_alone(s: SubModel, deleted: Set<Seq<char>>) -> bool {
    s.customer_id matches Some(c) ==> deleted.contains(c)
}

/// The subscription is stored as it was found.
spec fn placed(r: Records, s: SubModel, key: Seq<char>, deleted: Set<Seq<char>>) -> bool {
    &&& r.subscriptions.dom().contains(s.id)
    &&& r.subscriptions[s.id].customer == s.customer_id
    &&& own_link(s, key) is Some ==> r.subscriptions[s.id].member is Some
    &&& stands_alone(s, deleted) && own_link(s, key) is Some ==> r.subscriptions[s.id].member
        == own_link(s, key)
    &&& r.subscriptions[s.id].member matches Some(m) ==> r.touched.contains(m)
}

/// The customer that came with the subscription is stored, unless it is deleted.
/// Where it has no member, nothing that is stored of it names one.
spec fn customer_placed(r: Records, s: SubModel, key: Seq<char>) -> bool {
    s.customer matches Some(c) ==> {
        &&& r.customers.dom().contains(c.id) <==> !c.deleted
        &&& !c.deleted && customer_row(r, c.id) is None ==> resolved(c.metadata, key) is None
            && forall|x: Seq<char>| !#[trigger] linked_to(r, c.id, x)
    }
}

/// Where the customer is stored without a member, the subscription has none.
spec fn member_shared(r: Records, s: SubModel) -> bool {
    s.customer_id matches Some(c) ==> r.customers.dom().contains(c) && r.customers[c].member is None
        ==> r.subscriptions[s.id].member is None
}

/// Some of the subscriptions is the customer's.
spec fn has_sub(subs: Seq<SubModel>, customer: Seq<char>) -> bool {
    exists|i: int| 0 <= i < subs.len() && (#[trigger] subs[i]).customer_id == Some(customer)
}

/// Some of the subscriptions is the customer's and has a member.
spec fn has_linked(r: Records, subs: Seq<SubModel>, customer: Seq<char>) -> bool {
    exists|i: int|
        0 <= i < subs.len() && (#[trigger] subs[i]).customer_id == Some(customer)
            && r.subscriptions[subs[i].id].member is Some
}

/// A customer with a member and a subscription has one with a member.
spec fn row_explained(
    r: Records,
    subs: Seq<SubModel>,
    customer: Seq<char>,
    deleted: Set<Seq<char>>,
) -> bool {
    !deleted.contains(customer) && customer_row(r, customer) is Some && has_sub(subs, customer)
        ==> has_linked(r, subs, customer)
}

/// The subscriptions were stored.
spec fn subs_stored(
    r: Records,
    subs: Seq<SubModel>,
    key: Seq<char>,
    who: Map<Seq<char>, Seq<char>>,
    deleted: Set<Seq<char>>,
) -> bool {
    &&& rows_name_one(r, who)
    &&& forall|i: int| 0 <= i < subs.len() ==> placed(r, #[trigger] subs[i], key, deleted)
    &&& forall|i: int| 0 <= i < subs.len() ==> customer_placed(r, #[trigger] subs[i], key)
    &&& forall|i: int| 0 <= i < subs.len() ==> member_shared(r, #[trigger] subs[i])
    &&& forall|c: Seq<char>| #[trigger] row_explained(r, subs, c, deleted)
}

/// Which customers are deleted.
spec fn deleted_among(
    deleted: Set<Seq<char>>,
    subs: Seq<SubModel>,
    customers: Seq<CustomerModel>,
) -> bool {
    &&& forall|i: int|
        0 <= i < subs.len() ==> ((#[trigger] subs[i]).customer matches Some(c) ==> c.deleted
            == deleted.contains(c.id))
    &&& forall|j: int|
        0 <= j < customers.len() ==> (#[trigger] customers[j]).deleted == deleted.contains(
            customers[j].id,
        )
}

proof fn lemma_store_subs(
    r: Records,
    all: Seq<SubModel>,
    customers: Seq<CustomerModel>,
    n: int,
    key: Seq<char>,
    pick: spec_fn(Records, Seq<char>) -> Option<Seq<char>>,
    who: Map<Seq<char>, Seq<char>>,
    deleted: Set<Seq<char>>,
)
    requires
        0 <= n <= all.len(),
        picks_a_member(pick),
        one_member_each(r, all, customers, key, who),
        answers_fit(all, customers),
        deleted_among(deleted, all, customers),
    ensures
        subs_stored(after_subscriptions(r, all.take(n), key, pick), all.take(n), key, who, deleted),
        forall|i: int|
            0 <= i < all.len() ==> stored_names_one(
                after_subscriptions(r, all.take(n), key, pick),
                #[trigger] all[i],
                who,
            ),
    decreases n,
{
    let done = all.take(n);
    if n == 0 {
        assert(done.len() == 0);
    } else {
        lemma_store_subs(r, all, customers, n - 1, key, pick, who, deleted);
        let before = all.take(n - 1);
        assert(done.drop_last() =~= before);
        let s = all[n - 1];
        assert(done.last() == s);
        let b = after_subscriptions(r, before, key, pick);
        let stored = after_subscription(b, s, key, pick);
        let found = found_subscription(b, s, key, pick);
        let now = with_touched(stored, found);
        assert(after_subscriptions(r, done, key, pick) == now);
        assert(subscription_names_one(s, key, who));
        assert(names_its_customer(s));
        lemma_after_subscription(b, s, key, pick, who);
        assert forall|i: int| 0 <= i < done.len() implies placed(
            now,
            #[trigger] done[i],
            key,
            deleted,
        ) by {
            if i < n - 1 {
                assert(done[i] == before[i] && before[i] == all[i]);
                assert(placed(b, before[i], key, deleted));
                assert(b.subscriptions.dom().contains(done[i].id));
                if all[i].id == all[n - 1].id {
                    assert(done[i] == s);
                } else if stands_alone(done[i], deleted) {
                    assert(all[n - 1].customer matches Some(c) ==> c.deleted == deleted.contains(
                        c.id,
                    ));
                    assert(now.subscriptions[done[i].id] == b.subscriptions[done[i].id]);
                }
            }
        }
        assert forall|i: int| 0 <= i < done.len() implies customer_placed(
            now,
            #[trigger] done[i],
            key,
        ) by {
            if i < n - 1 {
                assert(done[i] == before[i] && before[i] == all[i]);
                assert(customer_placed(b, before[i], key));
                match done[i].customer {
                    Some(c) => {
                        assert(c.deleted == deleted.contains(c.id));
                        assert(all[n - 1].customer matches Some(o) ==> o.deleted
                            == deleted.contains(o.id));
                        if s.customer_id != Some(c.id) {
                            assert(now.customers.dom().contains(c.id) <==> b.customers.dom().contains(
                            c.id));
                        } else {
                            assert(b.customers.dom().contains(c.id) && !c.deleted
                                ==> now.customers.dom().contains(c.id));
                        }
                        if !c.deleted && customer_row(now, c.id) is None {
                            assert forall|x: Seq<char>| !#[trigger] linked_to(now, c.id, x) by {
                                if s.customer_id == Some(c.id) && s.customer is Some {
                                    assert(!linked_to(stored, c.id, x));
                                } else {
                                    assert(!linked_to(b, c.id, x));
                                    assert(x != s.id ==> (now.subscriptions.dom().contains(x)
                                        ==> b.subscriptions.dom().contains(x)));
                                }
                            }
                        }
                    },
                    None => {},
                }
            }
        }
        assert forall|i: int| 0 <= i < done.len() implies member_shared(now, #[trigger] done[i]) by {
            if i < n - 1 {
                assert(done[i] == before[i] && before[i] == all[i]);
                assert(member_shared(b, before[i]));
                assert(placed(b, before[i], key, deleted));
                assert(placed(now, done[i], key, deleted));
                assert(b.subscriptions.dom().contains(done[i].id));
                assert(all[i].id == s.id ==> all[i] == all[n - 1]);
                match done[i].customer_id {
                    Some(c) => {
                        if now.customers.dom().contains(c) && now.customers[c].member is None {
                            if s.customer_id == Some(c) && s.customer is Some {
                                assert(customer_row(stored, c) is None);
                                assert(!linked_to(stored, c, done[i].id));
                            } else {
                                assert(b.customers.dom().contains(c));
                            }
                        }
                    },
                    None => {},
                }
            }
        }
        assert forall|c: Seq<char>| #[trigger] row_explained(now, done, c, deleted) by {
            if !deleted.contains(c) && customer_row(now, c) is Some && has_sub(done, c) {
                if s.customer_id == Some(c) {
                    assert(done[n - 1].customer_id == Some(c));
                    assert(has_linked(now, done, c));
                } else {
                    let i = choose|i: int|
                        0 <= i < done.len() && (#[trigger] done[i]).customer_id == Some(c);
                    assert(before[i].customer_id == Some(c));
                    assert(now.customers.dom().contains(c) <==> b.customers.dom().contains(c));
                    assert(row_explained(b, before, c, deleted));
                    let j = choose|j: int|
                        0 <= j < before.len() && (#[trigger] before[j]).customer_id == Some(c)
                            && b.subscriptions[before[j].id].member is Some;
                    assert(done[j] == before[j] && before[j] == all[j]);
                    assert(placed(b, before[j], key, deleted));
                    assert(all[j].id != all[n - 1].id) by {
                        if all[j].id == all[n - 1].id {
                            assert(all[j] == all[n - 1]);
                        }
                    }
                    assert(b.subscriptions.dom().contains(done[j].id));
                    assert(now.subscriptions[done[j].id].member is Some);
                }
            }
        }
        assert(rows_name_one(now, who));
        assert forall|i: int| 0 <= i < all.len() implies stored_names_one(
            now,
            #[trigger] all[i],
            who,
        ) by {
            assert(stored_names_one(b, all[i], who));
            assert(all[i].id == s.id ==> all[i] == all[n - 1]);
            if now.subscriptions.dom().contains(all[i].id) {
                assert(all[i].id != s.id ==> b.subscriptions.dom().contains(all[i].id));
                assert(match now.subscriptions[all[i].id].customer {
                    Some(c) => names(now.subscriptions[all[i].id].member, who[c]),
                    None => true,
                });
            }
        }
    }
}

/// All that is stored of a customer names its member, who was touched.
spec fn fully_linked(r: Records, c: CustomerModel, who: Map<Seq<char>, Seq<char>>) -> bool {
    &&& customer_row(r, c.id) == Some(who[c.id])
    &&& forall|x: Seq<char>| #[trigger]
        r.subscriptions.dom().contains(x) && r.subscriptions[x].customer == Some(c.id)
            ==> r.subscriptions[x].member is Some
    &&& r.touched.contains(who[c.id])
}

/// Nothing that was read of a customer names a member.
spec fn unlinked(r: Records, c: CustomerModel, subs: Seq<SubModel>, key: Seq<char>) -> bool {
    &&& resolved(c.metadata, key) is None
    &&& forall|x: Seq<char>| !#[trigger] linked_to(r, c.id, x)
    &&& customer_row(r, c.id) is None || !has_sub(subs, c.id)
}

/// The customer was stored.
spec fn settled(
    r: Records,
    c: CustomerModel,
    subs: Seq<SubModel>,
    key: Seq<char>,
    who: Map<Seq<char>, Seq<char>>,
) -> bool {
    if c.deleted {
        !r.customers.dom().contains(c.id)
    } else {
        r.customers.dom().contains(c.id) && (fully_linked(r, c, who) || unlinked(r, c, subs, key))
    }
}

spec fn all_stored(
    r: Records,
    subs: Seq<SubModel>,
    customers: Seq<CustomerModel>,
    key: Seq<char>,
    who: Map<Seq<char>, Seq<char>>,
    deleted: Set<Seq<char>>,
) -> bool {
    &&& subs_stored(r, subs, key, who, deleted)
    &&& forall|j: int| 0 <= j < customers.len() ==> settled(r, #[trigger] customers[j], subs, key, who)
}

proof fn lemma_store_customers(
    r: Records,
    subs: Seq<SubModel>,
    all: Seq<CustomerModel>,
    n: int,
    key: Seq<char>,
    pick: spec_fn(Records, Seq<char>) -> Option<Seq<char>>,
    who: Map<Seq<char>, Seq<char>>,
    deleted: Set<Seq<char>>,
)
    requires
        0 <= n <= all.len(),
        picks_a_member(pick),
        subs_stored(r, subs, key, who, deleted),
        forall|j: int| 0 <= j < all.len() ==> customer_names_one(#[trigger] all[j], key, who),
        one_object_each(subs, all),
        deleted_among(deleted, subs, all),
    ensures
        all_stored(
            after_customers(r, all.take(n), key, pick),
            subs,
            all.take(n),
            key,
            who,
            deleted,
        ),
    decreases n,
{
    let done = all.take(n);
    if n == 0 {
        assert(done.len() == 0);
    } else {
        lemma_store_customers(r, subs, all, n - 1, key, pick, who, deleted);
        let before = all.take(n - 1);
        assert(done.drop_last() =~= before);
        let c = all[n - 1];
        assert(done.last() == c);
        let b = after_customers(r, before, key, pick);
        let stored = after_customer(b, c, key, pick);
        let found = found_customer(b, c, key, pick);
        let now = with_touched(stored, found);
        assert(after_customers(r, done, key, pick) == now);
        assert(customer_names_one(c, key, who));
        assert(c.deleted == deleted.contains(c.id));
        lemma_after_customer(b, c, key, pick, who);
        assert forall|i: int| 0 <= i < subs.len() implies placed(
            now,
            #[trigger] subs[i],
            key,
            deleted,
        ) by {
            assert(placed(b, subs[i], key, deleted));
            assert(b.subscriptions.dom().contains(subs[i].id));
        }
        assert forall|i: int| 0 <= i < subs.len() implies customer_placed(
            now,
            #[trigger] subs[i],
            key,
        ) by {
            assert(customer_placed(b, subs[i], key));
            match subs[i].customer {
                Some(o) => {
                    assert(o.deleted == deleted.contains(o.id));
                    if o.id != c.id {
                        assert(now.customers.dom().contains(o.id) <==> b.customers.dom().contains(
                            o.id,
                        ));
                    }
                    if !o.deleted && customer_row(now, o.id) is None {
                        assert forall|x: Seq<char>| !#[trigger] linked_to(now, o.id, x) by {
                            if linked_to(now, o.id, x) {
                                assert(b.subscriptions.dom().contains(x));
                                assert(linked_to(b, o.id, x));
                            }
                        }
                    }
                },
                None => {},
            }
        }
        assert forall|i: int| 0 <= i < subs.len() implies member_shared(now, #[trigger] subs[i]) by {
            assert(member_shared(b, subs[i]));
            assert(placed(b, subs[i], key, deleted));
            assert(b.subscriptions.dom().contains(subs[i].id));
            if subs[i].customer_id == Some(c.id) && !c.deleted && found is None {
                assert(!linked_to(b, c.id, subs[i].id));
            }
        }
        assert(row_explained(b, subs, c.id, deleted));
        assert forall|k: Seq<char>| #[trigger] row_explained(now, subs, k, deleted) by {
            if !deleted.contains(k) && customer_row(now, k) is Some && has_sub(subs, k) {
                if k == c.id && found is Some {
                    let i = choose|i: int|
                        0 <= i < subs.len() && (#[trigger] subs[i]).customer_id == Some(k);
                    assert(placed(now, subs[i], key, deleted));
                    assert(now.subscriptions[subs[i].id].member is Some);
                } else {
                    if k != c.id {
                        assert(now.customers.dom().contains(k) <==> b.customers.dom().contains(k));
                    }
                    assert(row_explained(b, subs, k, deleted));
                    let j = choose|j: int|
                        0 <= j < subs.len() && (#[trigger] subs[j]).customer_id == Some(k)
                            && b.subscriptions[subs[j].id].member is Some;
                    assert(placed(b, subs[j], key, deleted));
                    assert(b.subscriptions.dom().contains(subs[j].id));
                    assert(now.subscriptions[subs[j].id].member is Some);
                }
            }
        }
        assert(rows_name_one(now, who));
        assert(settled(now, c, subs, key, who)) by {
            if !c.deleted {
                if found is Some {
                    assert(fully_linked(now, c, who));
                } else {
                    if customer_row(now, c.id) is Some && has_sub(subs, c.id) {
                        let j = choose|j: int|
                            0 <= j < subs.len() && (#[trigger] subs[j]).customer_id == Some(c.id)
                                && b.subscriptions[subs[j].id].member is Some;
                        assert(placed(b, subs[j], key, deleted));
                        assert(linked_to(b, c.id, subs[j].id));
                    }
                    assert forall|x: Seq<char>| !#[trigger] linked_to(now, c.id, x) by {
                        assert(!linked_to(b, c.id, x));
                    }
                    assert(unlinked(now, c, subs, key));
                }
            }
        }
        assert forall|j: int| 0 <= j < done.len() implies settled(
            now,
            #[trigger] done[j],
            subs,
            key,
            who,
        ) by {
            let o = done[j];
            assert(o == all[j]);
            if o.id == c.id {
                assert(all[j] == all[n - 1]);
            } else {
                assert(o == before[j]);
                assert(settled(b, before[j], subs, key, who));
                assert(now.customers.dom().contains(o.id) <==> b.customers.dom().contains(o.id));
                if !o.deleted {
                    if fully_linked(b, o, who) {
                        assert forall|x: Seq<char>| #[trigger]
                            now.subscriptions.dom().contains(x) && now.subscriptions[x].customer
                                == Some(o.id) implies now.subscriptions[x].member is Some by {
                            assert(b.subscriptions.dom().contains(x));
                        }
                        assert(fully_linked(now, o, who));
                    } else {
                        assert forall|x: Seq<char>| !#[trigger] linked_to(now, o.id, x) by {
                            if linked_to(now, o.id, x) {
                                assert(b.subscriptions.dom().contains(x));
                                assert(linked_to(b, o.id, x));
                            }
                        }
                    }
                }
            }
        }
    }
}

// ---------------------------------------------------------------------------
// The second import
// ---------------------------------------------------------------------------

/// What the second import meets: everything is stored.
spec fn at_rest(
    r: Records,
    subs: Seq<SubModel>,
    customers: Seq<CustomerModel>,
    key: Seq<char>,
    who: Map<Seq<char>, Seq<char>>,
    deleted: Set<Seq<char>>,
) -> bool {
    &&& all_stored(r, subs, customers, key, who, deleted)
    &&& forall|i: int| 0 <= i < subs.len() ==> names_its_customer(#[trigger] subs[i])
    &&& forall|i: int| 0 <= i < subs.len() ==> subscription_names_one(#[trigger] subs[i], key, who)
    &&& forall|j: int|
        0 <= j < customers.len() ==> customer_names_one(#[trigger] customers[j], key, who)
    &&& one_object_each(subs, customers)
    &&& deleted_among(deleted, subs, customers)
    &&& forall|c: Seq<char>| #[trigger]
        deleted.contains(c) ==> is_listed(customers, c) || came_along(subs, c)
    &&& forall|c: Seq<char>|
        !is_listed(customers, c) && !deleted.contains(c) ==> #[trigger] nothing_open(r, subs, c)
}

/// The same records, and nobody touched whom the others do not name.
spec fn same_rows(q: Records, r: Records) -> bool {
    &&& q.customers == r.customers
    &&& q.subscriptions == r.subscriptions
    &&& q.touched.subset_of(r.touched)
}

/// To store a customer again changes nothing, where the object names nobody that
/// the stored customer is not linked to.
proof fn lemma_customer_again(
    q: Records,
    r: Records,
    c: CustomerModel,
    listed: CustomerModel,
    subs: Seq<SubModel>,
    key: Seq<char>,
    pick: spec_fn(Records, Seq<char>) -> Option<Seq<char>>,
    who: Map<Seq<char>, Seq<char>>,
)
    requires
        same_rows(q, r),
        rows_name_one(r, who),
        picks_a_member(pick),
        customer_names_one(c, key, who),
        !c.deleted,
        !listed.deleted,
        listed.id == c.id,
        settled(r, listed, subs, key, who),
        unlinked(r, listed, subs, key) ==> resolved(c.metadata, key) is None,
    ensures
        after_customer(q, c, key, pick) == q,
        found_customer(q, c, key, pick) matches Some(m) ==> r.touched.contains(m) && m == who[c.id]
            && fully_linked(r, listed, who),
{
    let n = after_customer(q, c, key, pick);
    let found = found_customer(q, c, key, pick);
    assert(rows_name_one(q, who));
    lemma_after_customer(q, c, key, pick, who);
    assert(right_pick(pick, q, c.id));
    if found is Some {
        assert(fully_linked(r, listed, who)) by {
            if unlinked(r, listed, subs, key) {
                match pick(q, c.id) {
                    Some(m) => {
                        let x = choose|x: Seq<char>| #[trigger]
                            linked_to(q, c.id, x) && q.subscriptions[x].member == Some(m);
                        assert(!linked_to(r, listed.id, x));
                    },
                    None => {},
                }
            }
        }
        assert forall|x: Seq<char>| q.subscriptions.dom().contains(x) implies n.subscriptions[x]
            == q.subscriptions[x] by {
            assert(r.subscriptions.dom().contains(x));
        }
    }
    assert(n.subscriptions =~= q.subscriptions);
    assert(n.customers =~= q.customers);
}

/// The same of a subscription whose customer was not listed, though it is not
/// deleted.
proof fn lemma_open_subscription_again(
    q: Records,
    r: Records,
    subs: Seq<SubModel>,
    customers: Seq<CustomerModel>,
    i: int,
    key: Seq<char>,
    pick: spec_fn(Records, Seq<char>) -> Option<Seq<char>>,
    who: Map<Seq<char>, Seq<char>>,
    deleted: Set<Seq<char>>,
)
    requires
        same_rows(q, r),
        picks_a_member(pick),
        at_rest(r, subs, customers, key, who, deleted),
        0 <= i < subs.len(),
        subs[i].customer_id matches Some(c) && !is_listed(customers, c) && !deleted.contains(c),
    ensures
        after_subscription(q, subs[i], key, pick) == q,
        found_subscription(q, subs[i], key, pick) matches Some(m) ==> r.touched.contains(m),
{
    let s = subs[i];
    let c = s.customer_id->0;
    let row = r.subscriptions[s.id].member;
    assert(placed(r, s, key, deleted));
    assert(customer_placed(r, s, key));
    assert(member_shared(r, s));
    assert(r.subscriptions.dom().contains(s.id));
    assert(names_its_customer(s));
    assert(subscription_names_one(s, key, who));
    assert(rows_name_one(q, who));
    assert(nothing_open(r, subs, c));
    let mid = after_its_customer(q, s, key, pick);
    let found = found_subscription(q, s, key, pick);
    let n = after_subscription(q, s, key, pick);
    match s.customer {
        Some(o) => {
            assert(o.deleted == deleted.contains(o.id));
            assert(came_along(subs, c));
            lemma_after_customer(q, o, key, pick, who);
            assert(right_pick(pick, q, o.id));
            if customer_row(r, c) is None {
                match pick(q, o.id) {
                    Some(m) => {
                        let x = choose|x: Seq<char>| #[trigger]
                            linked_to(q, o.id, x) && q.subscriptions[x].member == Some(m);
                        assert(!linked_to(r, o.id, x));
                    },
                    None => {},
                }
                assert(found_customer(q, o, key, pick) is None);
            } else {
                assert forall|x: Seq<char>| q.subscriptions.dom().contains(
                    x,
                ) implies mid.subscriptions[x] == q.subscriptions[x] by {
                    assert(r.subscriptions.dom().contains(x));
                }
            }
            assert(mid.subscriptions =~= q.subscriptions);
            assert(mid.customers =~= q.customers);
        },
        None => {},
    }
    assert(mid == q);
    assert(names(row, who[c]));
    assert(found == row);
    assert(n.customers =~= q.customers);
    assert(n.subscriptions =~= q.subscriptions);
}

proof fn lemma_subscription_again(
    q: Records,
    r: Records,
    subs: Seq<SubModel>,
    customers: Seq<CustomerModel>,
    i: int,
    key: Seq<char>,
    pick: spec_fn(Records, Seq<char>) -> Option<Seq<char>>,
    who: Map<Seq<char>, Seq<char>>,
    deleted: Set<Seq<char>>,
)
    requires
        same_rows(q, r),
        picks_a_member(pick),
        at_rest(r, subs, customers, key, who, deleted),
        0 <= i < subs.len(),
    ensures
        after_subscription(q, subs[i], key, pick) == q,
        found_subscription(q, subs[i], key, pick) matches Some(m) ==> r.touched.contains(m),
{
    let s = subs[i];
    let row = r.subscriptions[s.id].member;
    assert(placed(r, s, key, deleted));
    assert(r.subscriptions.dom().contains(s.id));
    assert(names_its_customer(s));
    assert(subscription_names_one(s, key, who));
    let mid = after_its_customer(q, s, key, pick);
    let found = found_subscription(q, s, key, pick);
    let n = after_subscription(q, s, key, pick);
    match s.customer_id {
        None => {
            assert(mid == q);
            assert(found == row);
            assert(n.customers =~= q.customers);
        },
        Some(c) => {
            if deleted.contains(c) {
                assert(!r.customers.dom().contains(c)) by {
                    if is_listed(customers, c) {
                        let j = choose|j: int|
                            0 <= j < customers.len() && (#[trigger] customers[j]).id == c;
                        assert(settled(r, customers[j], subs, key, who));
                    } else {
                        assert(came_along(subs, c));
                        let k = choose|k: int|
                            0 <= k < subs.len() && ((#[trigger] subs[k]).customer matches Some(o)
                                && o.id == c);
                        assert(customer_placed(r, subs[k], key));
                        assert(subs[k].customer matches Some(o) ==> o.deleted == deleted.contains(
                            o.id,
                        ));
                    }
                }
                match s.customer {
                    Some(o) => {
                        assert(subs[i].customer matches Some(o) ==> o.deleted == deleted.contains(
                            o.id,
                        ));
                        assert(mid.customers =~= q.customers);
                    },
                    None => {},
                }
                assert(mid == q);
                assert(found == row);
                assert(n.customers =~= q.customers);
            } else if !is_listed(customers, c) {
                lemma_open_subscription_again(q, r, subs, customers, i, key, pick, who, deleted);
            } else {
                let j = choose|j: int|
                    0 <= j < customers.len() && (#[trigger] customers[j]).id == c;
                let listed = customers[j];
                assert(settled(r, listed, subs, key, who));
                assert(listed.deleted == deleted.contains(listed.id));
                assert(has_sub(subs, c));
                if unlinked(r, listed, subs, key) {
                    assert(!linked_to(r, listed.id, s.id));
                    assert(own_link(s, key) is None);
                }
                match s.customer {
                    Some(o) => {
                        assert(subs[i].customer matches Some(o) ==> o.deleted == deleted.contains(
                            o.id,
                        ));
                        lemma_customer_again(q, r, o, listed, subs, key, pick, who);
                    },
                    None => {},
                }
                assert(mid == q);
                if fully_linked(r, listed, who) {
                    assert(row is Some);
                    assert(names(row, who[c]));
                    assert(found == row);
                } else {
                    assert(unlinked(r, listed, subs, key));
                    assert(found is None);
                    assert(row is None);
                }
                assert(n.customers =~= q.customers);
            }
        },
    }
    assert(n.subscriptions =~= q.subscriptions);
}

proof fn lemma_subscriptions_again(
    q: Records,
    r: Records,
    subs: Seq<SubModel>,
    customers: Seq<CustomerModel>,
    n: int,
    key: Seq<char>,
    pick: spec_fn(Records, Seq<char>) -> Option<Seq<char>>,
    who: Map<Seq<char>, Seq<char>>,
    deleted: Set<Seq<char>>,
)
    requires
        same_rows(q, r),
        picks_a_member(pick),
        at_rest(r, subs, customers, key, who, deleted),
        0 <= n <= subs.len(),
    ensures
        same_rows(after_subscriptions(q, subs.take(n), key, pick), r),
    decreases n,
{
    if n > 0 {
        lemma_subscriptions_again(q, r, subs, customers, n - 1, key, pick, who, deleted);
        assert(subs.take(n).drop_last() =~= subs.take(n - 1));
        let before = after_subscriptions(q, subs.take(n - 1), key, pick);
        lemma_subscription_again(before, r, subs, customers, n - 1, key, pick, who, deleted);
    }
}

proof fn lemma_customers_again(
    q: Records,
    r: Records,
    subs: Seq<SubModel>,
    customers: Seq<CustomerModel>,
    n: int,
    key: Seq<char>,
    pick: spec_fn(Records, Seq<char>) -> Option<Seq<char>>,
    who: Map<Seq<char>, Seq<char>>,
    deleted: Set<Seq<char>>,
)
    requires
        same_rows(q, r),
        picks_a_member(pick),
        at_rest(r, subs, customers, key, who, deleted),
        0 <= n <= customers.len(),
    ensures
        same_rows(after_customers(q, customers.take(n), key, pick), r),
    decreases n,
{
    if n > 0 {
        lemma_customers_again(q, r, subs, customers, n - 1, key, pick, who, deleted);
        assert(customers.take(n).drop_last() =~= customers.take(n - 1));
        let before = after_customers(q, customers.take(n - 1), key, pick);
        let c = customers[n - 1];
        assert(customers.take(n).last() == c);
        assert(settled(r, c, subs, key, who));
        assert(customer_names_one(c, key, who));
        if c.deleted {
            assert(after_customer(before, c, key, pick).customers =~= r.customers);
        } else {
            lemma_customer_again(before, r, c, c, subs, key, pick, who);
        }
    }
}

proof fn lemma_stored_with_charges(
    r: Records,
    subs: Seq<SubModel>,
    customers: Seq<CustomerModel>,
    charges: Seq<RawChargeModel>,
    key: Seq<char>,
    who: Map<Seq<char>, Seq<char>>,
    deleted: Set<Seq<char>>,
)
    requires
        all_stored(r, subs, customers, key, who, deleted),
    ensures
        all_stored(after_charges(r, charges), subs, customers, key, who, deleted),
{
    let n = after_charges(r, charges);
    assert forall|c: Seq<char>| #[trigger] n.customers.dom().contains(c) implies names(
        n.customers[c].member,
        who[c],
    ) by {
        assert(r.customers.dom().contains(c));
    }
    assert forall|x: Seq<char>| #[trigger] n.subscriptions.dom().contains(x) implies (
    n.subscriptions[x].customer matches Some(k) ==> names(n.subscriptions[x].member, who[k])) by {
        assert(r.subscriptions.dom().contains(x));
    }
    assert forall|i: int| 0 <= i < subs.len() implies placed(n, #[trigger] subs[i], key, deleted) by {
        assert(placed(r, subs[i], key, deleted));
    }
    assert forall|i: int| 0 <= i < subs.len() implies customer_placed(n, #[trigger] subs[i], key) by {
        assert(customer_placed(r, subs[i], key));
        match subs[i].customer {
            Some(c) => {
                assert(customer_row(n, c.id) == customer_row(r, c.id));
                if !c.deleted && customer_row(n, c.id) is None {
                    assert forall|x: Seq<char>| !#[trigger] linked_to(n, c.id, x) by {
                        assert(!linked_to(r, c.id, x));
                    }
                }
            },
            None => {},
        }
    }
    assert forall|i: int| 0 <= i < subs.len() implies member_shared(n, #[trigger] subs[i]) by {
        assert(member_shared(r, subs[i]));
    }
    assert forall|c: Seq<char>| #[trigger] row_explained(n, subs, c, deleted) by {
        assert(row_explained(r, subs, c, deleted));
        assert(customer_row(n, c) == customer_row(r, c));
        if has_linked(r, subs, c) {
            let i = choose|i: int|
                0 <= i < subs.len() && (#[trigger] subs[i]).customer_id == Some(c)
                    && r.subscriptions[subs[i].id].member is Some;
            assert(n.subscriptions[subs[i].id].member is Some);
        }
    }
    assert forall|j: int| 0 <= j < customers.len() implies settled(
        n,
        #[trigger] customers[j],
        subs,
        key,
        who,
    ) by {
        let c = customers[j];
        assert(settled(r, c, subs, key, who));
        assert(customer_row(n, c.id) == customer_row(r, c.id));
        if !c.deleted && !fully_linked(r, c, who) {
            assert forall|x: Seq<char>| !#[trigger] linked_to(n, c.id, x) by {
                assert(!linked_to(r, c.id, x));
            }
        }
    }
}

proof fn lemma_charges_again(q: Records, r: Records, charges: Seq<RawChargeModel>)
    requires
        same_rows(q, after_charges(r, charges)),
    ensures
        same_rows(after_charges(q, charges), after_charges(r, charges)),
{
    let n = after_charges(r, charges);
    let again = after_charges(q, charges);
    assert(again.customers =~= n.customers);
    assert forall|m: Seq<char>| again.touched.contains(m) implies n.touched.contains(m) by {
        if !q.touched.contains(m) {
            let c = choose|c: Seq<char>| #[trigger] paid_as(q, charges, c, m);
            assert(paid_as(r, charges, c, m));
        }
    }
}

/// To import the same again changes nothing: the second import leaves every
/// customer and every subscription linked to the same member, leaves the same
/// sums, and touches no member that the first one did not touch. So it does where
/// the charges cannot be read.
///
/// All that is stored and read of a customer is to name at most one member, what
/// was read is to be of one piece, and the first import is to leave nothing open:
/// otherwise the second would link a subscription that the first came to before
/// it knew the customer's member.
pub proof fn importing_again_changes_nothing(
    r: Records,
    subs: Seq<SubModel>,
    customers: Seq<CustomerModel>,
    charges: Option<Seq<RawChargeModel>>,
    key: Seq<char>,
    pick: spec_fn(Records, Seq<char>) -> Option<Seq<char>>,
    pick_again: spec_fn(Records, Seq<char>) -> Option<Seq<char>>,
    who: Map<Seq<char>, Seq<char>>,
)
    requires
        picks_a_member(pick),
        picks_a_member(pick_again),
        one_member_each(r, subs, customers, key, who),
        answers_fit(subs, customers),
        nothing_left_open(imported(r, subs, customers, charges, key, pick), subs, customers),
    ensures
        ({
            let once = imported(r, subs, customers, charges, key, pick);
            let twice = imported(once, subs, customers, charges, key, pick_again);
            &&& twice.customers == once.customers
            &&& twice.subscriptions == once.subscriptions
            &&& twice.touched.subset_of(once.touched)
        }),
{
    let n = subs.len() as int;
    let m = customers.len() as int;
    assert(subs.take(n) =~= subs);
    assert(customers.take(m) =~= customers);
    let start = untouched(r);
    assert(one_member_each(start, subs, customers, key, who)) by {
        assert forall|i: int| 0 <= i < subs.len() implies stored_names_one(
            start,
            #[trigger] subs[i],
            who,
        ) by {
            assert(stored_names_one(r, subs[i], who));
        }
    }
    let deleted = Set::new(|id: Seq<char>| is_deleted(subs, customers, id));
    lemma_store_subs(start, subs, customers, n, key, pick, who, deleted);
    let with_subs = after_subscriptions(start, subs, key, pick);
    lemma_store_customers(with_subs, subs, customers, m, key, pick, who, deleted);
    let stored = after_customers(with_subs, customers, key, pick);
    let once = imported(r, subs, customers, charges, key, pick);
    match charges {
        Some(list) => {
            lemma_stored_with_charges(stored, subs, customers, list, key, who, deleted);
        },
        None => {},
    }
    assert(at_rest(once, subs, customers, key, who, deleted)) by {
        assert forall|c: Seq<char>| #[trigger] deleted.contains(c) implies is_listed(customers, c)
            || came_along(subs, c) by {
            assert(is_deleted(subs, customers, c));
        }
    }
    let again = untouched(once);
    lemma_subscriptions_again(again, once, subs, customers, n, key, pick_again, who, deleted);
    let subs_again = after_subscriptions(again, subs, key, pick_again);
    lemma_customers_again(subs_again, once, subs, customers, m, key, pick_again, who, deleted);
    let stored_again = after_customers(subs_again, customers, key, pick_again);
    match charges {
        Some(list) => {
            lemma_charges_again(stored_again, stored, list);
        },
        None => {},
    }
}

/// The facts of the members after those of the touched ones were rebuilt.
/// `facts_of` gives a member's facts from all that is stored.
pub open spec fn rebuilt<F>(
    facts: Map<Seq<char>, F>,
    r: Records,
    columns: Columns,
    facts_of: spec_fn(
        Map<Seq<char>, CustomerRecord>,
        Map<Seq<char>, SubRecord>,
        Columns,
        Seq<char>,
    ) -> F,
) -> Map<Seq<char>, F> {
    Map::new(
        |m: Seq<char>| facts.dom().contains(m) || r.touched.contains(m),
        |m: Seq<char>|
            if r.touched.contains(m) {
                facts_of(r.customers, r.subscriptions, columns, m)
            } else {
                facts[m]
            },
    )
}

/// To import the same again leaves the facts of every member as they are.
pub proof fn importing_again_keeps_the_facts<F>(
    facts: Map<Seq<char>, F>,
    columns: Columns,
    r: Records,
    subs: Seq<SubModel>,
    customers: Seq<CustomerModel>,
    charges: Option<Seq<RawChargeModel>>,
    key: Seq<char>,
    pick: spec_fn(Records, Seq<char>) -> Option<Seq<char>>,
    pick_again: spec_fn(Records, Seq<char>) -> Option<Seq<char>>,
    who: Map<Seq<char>, Seq<char>>,
    facts_of: spec_fn(
        Map<Seq<char>, CustomerRecord>,
        Map<Seq<char>, SubRecord>,
        Columns,
        Seq<char>,
    ) -> F,
)
    requires
        picks_a_member(pick),
        picks_a_member(pick_again),
        one_member_each(r, subs, customers, key, who),
        answers_fit(subs, customers),
        nothing_left_open(imported(r, subs, customers, charges, key, pick), subs, customers),
    ensures
        ({
            let once = imported(r, subs, customers, charges, key, pick);
            let columns_once = columns_after(columns, subs, customers);
            let facts_once = rebuilt(facts, once, columns_once, facts_of);
            let twice = imported(once, subs, customers, charges, key, pick_again);
            let columns_twice = columns_after(columns_once, subs, customers);
            rebuilt(facts_once, twice, columns_twice, facts_of) == facts_once
        }),
{
    importing_again_changes_nothing(
        r,
        subs,
        customers,
        charges,
        key,
        pick,
        pick_again,
        who,
    );
    writing_again_changes_nothing(columns, subs, customers);
    let once = imported(r, subs, customers, charges, key, pick);
    let columns_once = columns_after(columns, subs, customers);
    let facts_once = rebuilt(facts, once, columns_once, facts_of);
    let twice = imported(once, subs, customers, charges, key, pick_again);
    assert(rebuilt(facts_once, twice, columns_once, facts_of) =~= facts_once);
}

/// The same was paid by the customer, as far as both records tell.
spec fn same_sums(r: Records, n: Records, id: Seq<char>) -> bool {
    &&& n.customers.dom().contains(id)
    &&& n.customers[id].spend == r.customers[id].spend
    &&& n.customers[id].payments == r.customers[id].payments
}

proof fn lemma_subscriptions_keep_sums(
    r: Records,
    subs: Seq<SubModel>,
    n: int,
    key: Seq<char>,
    pick: spec_fn(Records, Seq<char>) -> Option<Seq<char>>,
    id: Seq<char>,
)
    requires
        0 <= n <= subs.len(),
        r.customers.dom().contains(id),
        forall|i: int|
            0 <= i < subs.len() ==> ((#[trigger] subs[i]).customer matches Some(c) ==> c.deleted
                ==> c.id != id),
    ensures
        same_sums(r, after_subscriptions(r, subs.take(n), key, pick), id),
    decreases n,
{
    if n > 0 {
        lemma_subscriptions_keep_sums(r, subs, n - 1, key, pick, id);
        assert(subs.take(n).drop_last() =~= subs.take(n - 1));
        assert(subs.take(n).last() == subs[n - 1]);
    }
}

proof fn lemma_customers_keep_sums(
    r: Records,
    customers: Seq<CustomerModel>,
    n: int,
    key: Seq<char>,
    pick: spec_fn(Records, Seq<char>) -> Option<Seq<char>>,
    id: Seq<char>,
)
    requires
        0 <= n <= customers.len(),
        r.customers.dom().contains(id),
        forall|j: int|
            0 <= j < customers.len() ==> ((#[trigger] customers[j]).deleted ==> customers[j].id
                != id),
    ensures
        same_sums(r, after_customers(r, customers.take(n), key, pick), id),
    decreases n,
{
    if n > 0 {
        lemma_customers_keep_sums(r, customers, n - 1, key, pick, id);
        assert(customers.take(n).drop_last() =~= customers.take(n - 1));
        assert(customers.take(n).last() == customers[n - 1]);
    }
}

/// An import that cannot read the charges keeps what was stored of a customer's
/// payments, as long as the customer is not deleted.
pub proof fn unread_charges_keep_the_sums(
    r: Records,
    subs: Seq<SubModel>,
    customers: Seq<CustomerModel>,
    key: Seq<char>,
    pick: spec_fn(Records, Seq<char>) -> Option<Seq<char>>,
    id: Seq<char>,
)
    requires
        r.customers.dom().contains(id),
        agree_on_deleted(subs, customers),
        !is_deleted(subs, customers, id),
    ensures
        ({
            let n = imported(r, subs, customers, None, key, pick);
            &&& n.customers.dom().contains(id)
            &&& n.customers[id].spend == r.customers[id].spend
            &&& n.customers[id].payments == r.customers[id].payments
        }),
{
    let with_subs = after_subscriptions(untouched(r), subs, key, pick);
    assert(subs.take(subs.len() as int) =~= subs);
    assert(customers.take(customers.len() as int) =~= customers);
    lemma_subscriptions_keep_sums(untouched(r), subs, subs.len() as int, key, pick, id);
    lemma_customers_keep_sums(with_subs, customers, customers.len() as int, key, pick, id);
}

/// What the charges come to is set, not added: the sums after an import do not
/// depend on those before it.
pub proof fn charges_set_the_sums(
    r: Records,
    subs: Seq<SubModel>,
    customers: Seq<CustomerModel>,
    charges: Seq<RawChargeModel>,
    key: Seq<char>,
    pick: spec_fn(Records, Seq<char>) -> Option<Seq<char>>,
    id: Seq<char>,
)
    requires
        imported(r, subs, customers, Some(charges), key, pick).customers.dom().contains(id),
    ensures
        ({
            let n = imported(r, subs, customers, Some(charges), key, pick);
            &&& n.customers[id].spend == spent(charges, id)
            &&& n.customers[id].payments == payments(charges, id) as i32
        }),
{
}

} // verus!
