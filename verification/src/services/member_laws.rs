//! What a member's facts say of the member's records.
//!
//! Each law speaks of the records that `aggregate_member_facts` was given and of
//! the facts that it gave.
use vstd::prelude::*;
use crate::clock::Timestamp;
use crate::order::text_before;
use crate::services::member_facts::{
    active_status, active_subs, aggregate_member_facts, charges, customers_model,     earliest, earliest_is_first, first_text, last_largest, monthly_values,
    payment_counts, period_charge, present, primary, rank, ranks, spends, subs_model, sum,
    CustomerRow, CustomerRowModel, MemberFacts, SubRow, SubRowModel,
};
use crate::text::{lemma_cut_last_at, lemma_cut_last_none, text_of, texts};

verus! {

// ---------------------------------------------------------------------------
// Terms
// ---------------------------------------------------------------------------

/// The facts were put together from the records.
pub open spec fn put_together(
    customers: Vec<CustomerRow>,
    subs: Vec<SubRow>,
    m: MemberFacts,
) -> bool {
    call_ensures(aggregate_member_facts, (&customers, &subs), Some(m))
}

/// The subscription is paid for or on trial.
pub open spec fn goes_on(s: SubRow) -> bool {
    s.status@ == "active"@ || s.status@ == "trialing"@
}

/// Some subscription has the status.
pub open spec fn some_is(subs: Vec<SubRow>, status: Seq<char>) -> bool {
    exists|i: int| 0 <= i < subs@.len() && (#[trigger] subs@[i]).status@ == status
}

/// What a subscription costs in a period, with at least one of the price.
pub open spec fn cost(s: SubRow) -> int {
    if s.quantity > 1 {
        s.unit_amount_cents * s.quantity
    } else {
        s.unit_amount_cents as int
    }
}

/// How many of the subscriptions go on.
pub open spec fn number_going_on(subs: Seq<SubRow>) -> int
    decreases subs.len(),
{
    if subs.len() == 0 {
        0
    } else {
        number_going_on(subs.drop_last()) + (if goes_on(subs.last()) {
            1int
        } else {
            0
        })
    }
}

/// What the subscriptions that go on come to in a month.
pub open spec fn monthly_total(subs: Seq<SubRow>) -> int
    decreases subs.len(),
{
    if subs.len() == 0 {
        0
    } else {
        monthly_total(subs.drop_last()) + (if goes_on(subs.last()) {
            subs.last().monthly_cents as int
        } else {
            0
        })
    }
}

/// What the customers spent.
pub open spec fn total_spend(customers: Seq<CustomerRow>) -> int
    decreases customers.len(),
{
    if customers.len() == 0 {
        0
    } else {
        total_spend(customers.drop_last()) + customers.last().lifetime_spend_cents
    }
}

/// How often the customers paid.
pub open spec fn total_payments(customers: Seq<CustomerRow>) -> int
    decreases customers.len(),
{
    if customers.len() == 0 {
        0
    } else {
        total_payments(customers.drop_last()) + customers.last().successful_payments
    }
}

/// The result is the earliest of the points in time that `when` gives for the
/// subscriptions that go on, and none where it gives none.
pub open spec fn first_time_of(
    r: Option<Timestamp>,
    subs: Vec<SubRow>,
    when: spec_fn(SubRow) -> Option<Timestamp>,
) -> bool {
    match r {
        Some(t) => {
            &&& exists|i: int|
                0 <= i < subs@.len() && goes_on(#[trigger] subs@[i]) && when(subs@[i]) == Some(t)
            &&& forall|i: int|
                0 <= i < subs@.len() && goes_on(#[trigger] subs@[i]) ==> (when(subs@[i]) matches Some(
                    u,
                ) ==> t.instant() <= u.instant())
        },
        None => forall|i: int|
            0 <= i < subs@.len() && goes_on(#[trigger] subs@[i]) ==> when(subs@[i]) is None,
    }
}

/// The result is what `what` gives for the first customer for which it gives
/// something.
pub open spec fn first_known_of(
    r: Option<Seq<char>>,
    customers: Vec<CustomerRow>,
    what: spec_fn(CustomerRow) -> Option<Seq<char>>,
) -> bool {
    match r {
        Some(t) => exists|i: int|
            {
                &&& 0 <= i < customers@.len()
                &&& what(#[trigger] customers@[i]) == Some(t)
                &&& forall|j: int| 0 <= j < i ==> what(#[trigger] customers@[j]) is None
            },
        None => forall|i: int| 0 <= i < customers@.len() ==> what(#[trigger] customers@[i]) is None,
    }
}

/// The list has exactly what `what` gives for the subscriptions that go on, in
/// order and each once.
pub open spec fn lists_all(
    list: Seq<Seq<char>>,
    subs: Vec<SubRow>,
    what: spec_fn(SubRow) -> Option<Seq<char>>,
) -> bool {
    &&& forall|i: int, j: int|
        0 <= i < j < list.len() ==> text_before(#[trigger] list[i], #[trigger] list[j])
    &&& forall|t: Seq<char>| #[trigger]
        list.contains(t) <==> exists|i: int|
            0 <= i < subs@.len() && goes_on(#[trigger] subs@[i]) && what(subs@[i]) == Some(t)
}

// ---------------------------------------------------------------------------
// Records and their models
// ---------------------------------------------------------------------------

/// One of the models is this one, and active.
spec fn active_one(subs: Seq<SubRowModel>, x: SubRowModel) -> bool {
    exists|i: int| 0 <= i < subs.len() && active_status(subs[i].status) && #[trigger] subs[i] == x
}

/// One of the records is this one, and goes on.
spec fn ongoing_one(subs: Vec<SubRow>, x: SubRowModel) -> bool {
    exists|i: int| 0 <= i < subs@.len() && goes_on(#[trigger] subs@[i]) && subs@[i]@ == x
}

proof fn lemma_active_members(subs: Seq<SubRowModel>)
    ensures
        forall|j: int|
            0 <= j < active_subs(subs).len() ==> active_one(subs, #[trigger] active_subs(subs)[j]),
        forall|i: int|
            0 <= i < subs.len() && active_status((#[trigger] subs[i]).status) ==> active_subs(
                subs,
            ).contains(subs[i]),
    decreases subs.len(),
{
    if subs.len() > 0 {
        let before = subs.drop_last();
        lemma_active_members(before);
        let a = active_subs(subs);
        let b = active_subs(before);
        assert forall|j: int| 0 <= j < a.len() implies active_one(subs, #[trigger] a[j]) by {
            if j < b.len() {
                assert(a[j] == b[j]);
                let i = choose|i: int|
                    0 <= i < before.len() && active_status(before[i].status) && #[trigger] before[i]
                        == b[j];
                assert(subs[i] == before[i]);
            } else {
                assert(subs[subs.len() - 1] == a[j]);
            }
        }
        assert forall|i: int| 0 <= i < subs.len() && active_status(
            (#[trigger] subs[i]).status,
        ) implies a.contains(subs[i]) by {
            if i < before.len() {
                assert(before[i] == subs[i]);
                let j = choose|j: int| 0 <= j < b.len() && b[j] == before[i];
                assert(a[j] == b[j]);
            } else {
                assert(a[a.len() - 1] == subs[i]);
            }
        }
    }
}

/// What is active among the models is what goes on among the records.
proof fn lemma_active_records(subs: Vec<SubRow>)
    ensures
        forall|j: int|
            0 <= j < active_subs(subs_model(subs@)).len() ==> ongoing_one(
                subs,
                #[trigger] active_subs(subs_model(subs@))[j],
            ),
        forall|i: int|
            0 <= i < subs@.len() && goes_on(#[trigger] subs@[i]) ==> active_subs(
                subs_model(subs@),
            ).contains(subs@[i]@),
{
    let model = subs_model(subs@);
    let active = active_subs(model);
    lemma_active_members(model);
    assert forall|j: int| 0 <= j < active.len() implies ongoing_one(subs, #[trigger] active[j]) by {
        assert(active_one(model, active[j]));
        let i = choose|i: int|
            0 <= i < model.len() && active_status(model[i].status) && #[trigger] model[i]
                == active[j];
        assert(goes_on(subs@[i]) && subs@[i]@ == active[j]);
    }
    assert forall|i: int| 0 <= i < subs@.len() && goes_on(
        #[trigger] subs@[i],
    ) implies active.contains(subs@[i]@) by {
        assert(model[i] == subs@[i]@);
    }
}

proof fn lemma_first_text(s: Seq<Option<Seq<char>>>)
    ensures
        match first_text(s) {
            Some(t) => exists|i: int|
                {
                    &&& 0 <= i < s.len()
                    &&& #[trigger] s[i] == Some(t)
                    &&& forall|j: int| 0 <= j < i ==> #[trigger] s[j] is None
                },
            None => forall|i: int| 0 <= i < s.len() ==> #[trigger] s[i] is None,
        },
    decreases s.len(),
{
    if s.len() > 0 {
        let before = s.drop_last();
        lemma_first_text(before);
        assert forall|i: int| 0 <= i < before.len() implies before[i] == #[trigger] s[i] by {}
        match first_text(before) {
            Some(t) => {
                let i = choose|i: int|
                    {
                        &&& 0 <= i < before.len()
                        &&& #[trigger] before[i] == Some(t)
                        &&& forall|j: int| 0 <= j < i ==> #[trigger] before[j] is None
                    };
                assert(s[i] == Some(t));
                assert forall|j: int| 0 <= j < i implies #[trigger] s[j] is None by {
                    assert(before[j] is None);
                }
            },
            None => {
                assert forall|j: int| 0 <= j < before.len() implies #[trigger] s[j] is None by {
                    assert(before[j] is None);
                }
                assert(s[s.len() - 1] == s.last());
            },
        }
    }
}

proof fn lemma_present(s: Seq<Option<Seq<char>>>)
    ensures
        forall|t: Seq<char>| #[trigger] present(s).contains(t) <==> s.contains(Some(t)),
    decreases s.len(),
{
    if s.len() > 0 {
        let before = s.drop_last();
        lemma_present(before);
        let p = present(before);
        assert forall|t: Seq<char>| #[trigger] present(s).contains(t) <==> s.contains(Some(t)) by {
            if present(s).contains(t) {
                let i = choose|i: int| 0 <= i < present(s).len() && present(s)[i] == t;
                if i < p.len() {
                    assert(p[i] == t);
                    assert(p.contains(t));
                    let k = choose|k: int| 0 <= k < before.len() && before[k] == Some(t);
                    assert(s[k] == Some(t));
                } else {
                    assert(s[s.len() - 1] == Some(t));
                }
            }
            if s.contains(Some(t)) {
                let k = choose|k: int| 0 <= k < s.len() && s[k] == Some(t);
                if k < before.len() {
                    assert(before[k] == Some(t));
                    assert(p.contains(t));
                    let i = choose|i: int| 0 <= i < p.len() && p[i] == t;
                    assert(present(s)[i] == t);
                } else {
                    assert(present(s)[present(s).len() - 1] == t);
                }
            }
        }
    }
}

proof fn lemma_largest(s: Seq<int>)
    requires
        s.len() > 0,
    ensures
        0 <= last_largest(s) < s.len(),
        forall|i: int| 0 <= i < s.len() ==> #[trigger] s[i] <= s[last_largest(s)],
        forall|i: int| last_largest(s) < i < s.len() ==> #[trigger] s[i] < s[last_largest(s)],
    decreases s.len(),
{
    if s.len() > 1 {
        let before = s.drop_last();
        lemma_largest(before);
        assert forall|i: int| 0 <= i < before.len() implies #[trigger] s[i] == before[i] by {}
    }
}

/// A member has facts exactly where there is a record of theirs.
pub proof fn records_make_facts(
    customers: Vec<CustomerRow>,
    subs: Vec<SubRow>,
    r: Option<MemberFacts>,
)
    requires
        call_ensures(aggregate_member_facts, (&customers, &subs), r),
    ensures
        r is None <==> customers@.len() == 0 && subs@.len() == 0,
{
}

// ---------------------------------------------------------------------------
// Subscriptions
// ---------------------------------------------------------------------------

/// A member is past due, or on trial, exactly where a subscription of theirs is.
pub proof fn standing_is_that_of_a_subscription(
    customers: Vec<CustomerRow>,
    subs: Vec<SubRow>,
    m: MemberFacts,
)
    requires
        put_together(customers, subs, m),
    ensures
        m.is_past_due <==> some_is(subs, "past_due"@),
        m.is_trialing <==> some_is(subs, "trialing"@),
{
    let model = subs_model(subs@);
    assert forall|i: int| 0 <= i < subs@.len() implies model[i].status == (
    #[trigger] subs@[i]).status@ by {}
    if m.is_past_due {
        let i = choose|i: int| 0 <= i < model.len() && (#[trigger] model[i]).status == "past_due"@;
        assert(subs@[i].status@ == "past_due"@);
    }
    if m.is_trialing {
        let i = choose|i: int| 0 <= i < model.len() && (#[trigger] model[i]).status == "trialing"@;
        assert(subs@[i].status@ == "trialing"@);
    }
}

/// A member has an active subscription exactly where one of theirs goes on, and
/// cancels exactly where one that goes on does at the end of its period.
pub proof fn activity_is_that_of_a_subscription(
    customers: Vec<CustomerRow>,
    subs: Vec<SubRow>,
    m: MemberFacts,
)
    requires
        put_together(customers, subs, m),
    ensures
        m.has_active_subscription <==> exists|i: int|
            0 <= i < subs@.len() && goes_on(#[trigger] subs@[i]),
        m.cancels_at_period_end <==> exists|i: int|
            0 <= i < subs@.len() && goes_on(#[trigger] subs@[i]) && subs@[i].cancel_at_period_end,
{
    let active = active_subs(subs_model(subs@));
    lemma_active_records(subs);
    if m.has_active_subscription {
        assert(ongoing_one(subs, active[0]));
    }
    if m.cancels_at_period_end {
        let j = choose|j: int| 0 <= j < active.len() && (#[trigger] active[j]).cancel_at_period_end;
        assert(ongoing_one(subs, active[j]));
        let i = choose|i: int|
            0 <= i < subs@.len() && goes_on(#[trigger] subs@[i]) && subs@[i]@ == active[j];
        assert(goes_on(subs@[i]) && subs@[i].cancel_at_period_end);
    }
    assert forall|i: int| 0 <= i < subs@.len() && goes_on(#[trigger] subs@[i]) implies exists|j: int|
        0 <= j < active.len() && active[j] == subs@[i]@ by {
        assert(active.contains(subs@[i]@));
    }
}

/// All subscriptions that go on are counted, and what they come to in a month is
/// added up.
pub proof fn what_goes_on_is_counted(
    customers: Vec<CustomerRow>,
    subs: Vec<SubRow>,
    m: MemberFacts,
)
    requires
        put_together(customers, subs, m),
    ensures
        m.active_subscription_count == number_going_on(subs@) as i32,
        m.total_mrr_cents == monthly_total(subs@),
{
    lemma_totals(subs@);
}

proof fn lemma_totals(subs: Seq<SubRow>)
    ensures
        active_subs(subs_model(subs)).len() == number_going_on(subs),
        sum(monthly_values(active_subs(subs_model(subs)))) == monthly_total(subs),
    decreases subs.len(),
{
    let model = subs_model(subs);
    if subs.len() > 0 {
        lemma_totals(subs.drop_last());
        assert(subs_model(subs.drop_last()) =~= model.drop_last());
        assert(model.last() == subs.last()@);
        let before = active_subs(model.drop_last());
        if goes_on(subs.last()) {
            assert(monthly_values(active_subs(model)).drop_last() =~= monthly_values(before));
        }
    } else {
        assert(monthly_values(active_subs(model)) =~= Seq::empty());
    }
}

/// The headline is the most favorable status of any subscription: active, on
/// trial, past due, unpaid, paused, incomplete, canceled, in this order. A
/// member without a subscription has none.
pub proof fn headline_is_the_best_status(
    customers: Vec<CustomerRow>,
    subs: Vec<SubRow>,
    m: MemberFacts,
)
    requires
        put_together(customers, subs, m),
    ensures
        m.subscription_status is None <==> subs@.len() == 0,
        m.subscription_status matches Some(s) ==> some_is(subs, s@),
        some_is(subs, "active"@) ==> text_of(m.subscription_status) == Some("active"@),
        some_is(subs, "trialing"@) && !some_is(subs, "active"@) ==> text_of(m.subscription_status)
            == Some("trialing"@),
        some_is(subs, "past_due"@) && !some_is(subs, "active"@) && !some_is(subs, "trialing"@)
            ==> text_of(m.subscription_status) == Some("past_due"@),
        some_is(subs, "unpaid"@) && !some_is(subs, "active"@) && !some_is(subs, "trialing"@)
            && !some_is(subs, "past_due"@) ==> text_of(m.subscription_status) == Some("unpaid"@),
        some_is(subs, "paused"@) && !some_is(subs, "active"@) && !some_is(subs, "trialing"@)
            && !some_is(subs, "past_due"@) && !some_is(subs, "unpaid"@) ==> text_of(
            m.subscription_status,
        ) == Some("paused"@),
        some_is(subs, "incomplete"@) && !some_is(subs, "active"@) && !some_is(subs, "trialing"@)
            && !some_is(subs, "past_due"@) && !some_is(subs, "unpaid"@) && !some_is(
            subs,
            "paused"@,
        ) ==> text_of(m.subscription_status) == Some("incomplete"@),
        some_is(subs, "canceled"@) && !some_is(subs, "active"@) && !some_is(subs, "trialing"@)
            && !some_is(subs, "past_due"@) && !some_is(subs, "unpaid"@) && !some_is(
            subs,
            "paused"@,
        ) && !some_is(subs, "incomplete"@) ==> text_of(m.subscription_status) == Some(
            "canceled"@,
        ),
{
    let model = subs_model(subs@);
    let rs = ranks(model);
    reveal_strlit("active");
    reveal_strlit("trialing");
    reveal_strlit("past_due");
    reveal_strlit("unpaid");
    reveal_strlit("paused");
    reveal_strlit("incomplete");
    reveal_strlit("canceled");
    if subs@.len() > 0 {
        lemma_largest(rs);
        let b = last_largest(rs);
        assert(model[b] == subs@[b]@);
        assert(text_of(m.subscription_status) == Some(subs@[b].status@));
        assert(rs[b] == rank(subs@[b].status@));
        assert forall|s: Seq<char>| #[trigger] some_is(subs, s) implies rank(s) <= rank(
            subs@[b].status@,
        ) by {
            let i = choose|i: int| 0 <= i < subs@.len() && (#[trigger] subs@[i]).status@ == s;
            assert(rs[i] == rank(subs@[i].status@));
            assert(rs[i] <= rs[b]);
        }
        assert(some_is(subs, subs@[b].status@));
    }
}

/// The plan is that of the subscription that costs the most of those that go on;
/// of equal ones the last. Without one it costs nothing.
pub proof fn plan_is_the_dearest(
    customers: Vec<CustomerRow>,
    subs: Vec<SubRow>,
    m: MemberFacts,
)
    requires
        put_together(customers, subs, m),
    ensures
        (exists|i: int| 0 <= i < subs@.len() && goes_on(#[trigger] subs@[i])) ==> exists|i: int|
            {
                &&& 0 <= i < subs@.len()
                &&& goes_on(#[trigger] subs@[i])
                &&& m.plan_amount_cents == cost(subs@[i])
                &&& text_of(m.billing_interval) == text_of(subs@[i].interval)
                &&& forall|j: int|
                    0 <= j < subs@.len() && goes_on(#[trigger] subs@[j]) ==> cost(subs@[j]) <= cost(
                        subs@[i],
                    ) && (i < j ==> cost(subs@[j]) < cost(subs@[i]))
            },
        (forall|i: int| 0 <= i < subs@.len() ==> !goes_on(#[trigger] subs@[i]))
            ==> m.plan_amount_cents == 0 && m.billing_interval is None,
{
    lemma_primary(subs@);
    let active = active_subs(subs_model(subs@));
    lemma_active_records(subs);
    if active.len() > 0 {
        let p = choose|i: int| is_primary(subs@, i);
        assert(is_primary(subs@, p));
        assert(goes_on(subs@[p]));
    } else {
        assert forall|i: int| 0 <= i < subs@.len() implies !goes_on(#[trigger] subs@[i]) by {
            if goes_on(subs@[i]) {
                assert(active.contains(subs@[i]@));
            }
        }
    }
}

spec fn is_primary(subs: Seq<SubRow>, i: int) -> bool {
    &&& 0 <= i < subs.len()
    &&& goes_on(subs[i])
    &&& primary(active_subs(subs_model(subs))) == Some(subs[i]@)
    &&& forall|j: int|
        0 <= j < subs.len() && goes_on(#[trigger] subs[j]) ==> cost(subs[j]) <= cost(subs[i]) && (i
            < j ==> cost(subs[j]) < cost(subs[i]))
}

proof fn lemma_cost(s: SubRow)
    ensures
        cost(s) == period_charge(s@),
{
    let a = s.unit_amount_cents as int;
    assert(a * 1 == a) by (nonlinear_arith);
    assert(s.quantity == 1 ==> a * s.quantity == a) by (nonlinear_arith);
}

proof fn lemma_primary(subs: Seq<SubRow>)
    ensures
        active_subs(subs_model(subs)).len() > 0 ==> exists|i: int| #[trigger] is_primary(subs, i),
        active_subs(subs_model(subs)).len() == 0 ==> forall|i: int|
            0 <= i < subs.len() ==> !goes_on(#[trigger] subs[i]),
    decreases subs.len(),
{
    if subs.len() > 0 {
        let model = subs_model(subs);
        let before = subs.drop_last();
        lemma_primary(before);
        assert(subs_model(before) =~= model.drop_last());
        assert(model.last() == subs.last()@);
        let b = active_subs(model.drop_last());
        let a = active_subs(model);
        let n = subs.len() - 1;
        lemma_cost(subs[n]);
        assert forall|i: int| 0 <= i < n implies #[trigger] subs[i] == before[i] by {}
        if b.len() > 0 {
            let i = choose|i: int| is_primary(before, i);
            lemma_cost(before[i]);
            lemma_largest(charges(b));
            if goes_on(subs.last()) {
                assert(charges(a).drop_last() =~= charges(b));
                assert(charges(a).last() == period_charge(subs.last()@));
                assert(charges(b)[last_largest(charges(b))] == period_charge(before[i]@));
                if period_charge(subs.last()@) >= period_charge(before[i]@) {
                    assert(primary(a) == Some(subs[n]@));
                    assert(is_primary(subs, n));
                } else {
                    assert(a[last_largest(charges(b))] == b[last_largest(charges(b))]);
                    assert(is_primary(subs, i));
                }
            } else {
                assert(is_primary(subs, i));
            }
        } else if goes_on(subs.last()) {
            assert(a.len() == 1);
            assert(charges(a).len() == 1);
            assert(a[0] == subs[n]@);
            assert(is_primary(subs, n));
        }
    }
}

proof fn lemma_first_time(
    r: Option<Timestamp>,
    subs: Vec<SubRow>,
    of_model: spec_fn(SubRowModel) -> Option<Timestamp>,
    when: spec_fn(SubRow) -> Option<Timestamp>,
)
    requires
        r == earliest(active_subs(subs_model(subs@)).map_values(of_model)),
        forall|s: SubRow| of_model(#[trigger] s@) == when(s),
    ensures
        first_time_of(r, subs, when),
{
    let active = active_subs(subs_model(subs@));
    let times = active.map_values(of_model);
    lemma_active_records(subs);
    earliest_is_first(times);
    match r {
        Some(t) => {
            let j = choose|j: int| 0 <= j < times.len() && times[j] == Some(t);
            assert(times[j] == of_model(active[j]));
            assert(ongoing_one(subs, active[j]));
            let i = choose|i: int|
                0 <= i < subs@.len() && goes_on(#[trigger] subs@[i]) && subs@[i]@ == active[j];
            assert(goes_on(subs@[i]) && when(subs@[i]) == Some(t));
            assert forall|i: int| 0 <= i < subs@.len() && goes_on(#[trigger] subs@[i]) implies (
            when(subs@[i]) matches Some(u) ==> t.instant() <= u.instant()) by {
                assert(active.contains(subs@[i]@));
                let k = choose|k: int| 0 <= k < active.len() && active[k] == subs@[i]@;
                assert(times[k] == when(subs@[i]));
            }
        },
        None => {
            assert forall|i: int| 0 <= i < subs@.len() && goes_on(
                #[trigger] subs@[i],
            ) implies when(subs@[i]) is None by {
                assert(active.contains(subs@[i]@));
                let k = choose|k: int| 0 <= k < active.len() && active[k] == subs@[i]@;
                assert(times[k] == when(subs@[i]));
            }
        },
    }
}

/// The subscription started, its period ends and its trial ends at the earliest
/// of these times of the subscriptions that go on.
pub proof fn times_are_the_earliest(
    customers: Vec<CustomerRow>,
    subs: Vec<SubRow>,
    m: MemberFacts,
)
    requires
        put_together(customers, subs, m),
    ensures
        first_time_of(m.subscription_started_at, subs, |s: SubRow| s.started_at),
        first_time_of(m.current_period_end, subs, |s: SubRow| s.current_period_end),
        first_time_of(m.trial_end, subs, |s: SubRow| s.trial_end),
{
    lemma_first_time(
        m.subscription_started_at,
        subs,
        |s: SubRowModel| s.started_at,
        |s: SubRow| s.started_at,
    );
    lemma_first_time(
        m.current_period_end,
        subs,
        |s: SubRowModel| s.current_period_end,
        |s: SubRow| s.current_period_end,
    );
    lemma_first_time(
        m.trial_end,
        subs,
        |s: SubRowModel| s.trial_end,
        |s: SubRow| s.trial_end,
    );
}

proof fn lemma_lists_all(
    list: Seq<Seq<char>>,
    subs: Vec<SubRow>,
    of_model: spec_fn(SubRowModel) -> Option<Seq<char>>,
    what: spec_fn(SubRow) -> Option<Seq<char>>,
)
    requires
        crate::order::ascending(list),
        crate::order::same_members(
            list,
            present(active_subs(subs_model(subs@)).map_values(of_model)),
        ),
        forall|s: SubRow| of_model(#[trigger] s@) == what(s),
    ensures
        lists_all(list, subs, what),
{
    let active = active_subs(subs_model(subs@));
    let all = active.map_values(of_model);
    lemma_active_records(subs);
    lemma_present(all);
    assert forall|t: Seq<char>| #[trigger] list.contains(t) <==> exists|i: int|
        0 <= i < subs@.len() && goes_on(#[trigger] subs@[i]) && what(subs@[i]) == Some(t) by {
        if list.contains(t) {
            assert(present(all).contains(t));
            let j = choose|j: int| 0 <= j < all.len() && all[j] == Some(t);
            assert(all[j] == of_model(active[j]));
            assert(ongoing_one(subs, active[j]));
            let i = choose|i: int|
                0 <= i < subs@.len() && goes_on(#[trigger] subs@[i]) && subs@[i]@ == active[j];
            assert(goes_on(subs@[i]) && what(subs@[i]) == Some(t));
        }
        if exists|i: int|
            0 <= i < subs@.len() && goes_on(#[trigger] subs@[i]) && what(subs@[i]) == Some(t) {
            let i = choose|i: int|
                0 <= i < subs@.len() && goes_on(#[trigger] subs@[i]) && what(subs@[i]) == Some(t);
            assert(active.contains(subs@[i]@));
            let j = choose|j: int| 0 <= j < active.len() && active[j] == subs@[i]@;
            assert(all[j] == Some(t));
            assert(present(all).contains(t));
        }
    }
}

/// The products and the prices are those of the subscriptions that go on.
pub proof fn products_and_prices_are_those_that_go_on(
    customers: Vec<CustomerRow>,
    subs: Vec<SubRow>,
    m: MemberFacts,
)
    requires
        put_together(customers, subs, m),
    ensures
        lists_all(texts(m.product_ids@), subs, |s: SubRow| text_of(s.product_id)),
        lists_all(texts(m.price_ids@), subs, |s: SubRow| text_of(s.price_id)),
{
    lemma_lists_all(
        texts(m.product_ids@),
        subs,
        |s: SubRowModel| s.product_id,
        |s: SubRow| text_of(s.product_id),
    );
    lemma_lists_all(
        texts(m.price_ids@),
        subs,
        |s: SubRowModel| s.price_id,
        |s: SubRow| text_of(s.price_id),
    );
}

// ---------------------------------------------------------------------------
// Customers
// ---------------------------------------------------------------------------

/// What the customers spent and how often they paid is added up, and the member
/// is delinquent exactly where a customer is.
pub proof fn payments_are_added_up(
    customers: Vec<CustomerRow>,
    subs: Vec<SubRow>,
    m: MemberFacts,
)
    requires
        put_together(customers, subs, m),
    ensures
        m.lifetime_spend_cents == total_spend(customers@),
        m.successful_payments == total_payments(customers@),
        m.is_delinquent <==> exists|i: int|
            0 <= i < customers@.len() && (#[trigger] customers@[i]).delinquent,
{
    lemma_spend(customers@);
    let model = customers_model(customers@);
    assert forall|i: int| 0 <= i < customers@.len() implies model[i].delinquent == (
    #[trigger] customers@[i]).delinquent by {}
    if m.is_delinquent {
        let i = choose|i: int| 0 <= i < model.len() && (#[trigger] model[i]).delinquent;
        assert(customers@[i].delinquent);
    }
}

proof fn lemma_spend(customers: Seq<CustomerRow>)
    ensures
        sum(spends(customers_model(customers))) == total_spend(customers),
        sum(payment_counts(customers_model(customers))) == total_payments(customers),
    decreases customers.len(),
{
    let model = customers_model(customers);
    if customers.len() > 0 {
        let before = customers.drop_last();
        lemma_spend(before);
        assert(spends(model).drop_last() =~= spends(customers_model(before)));
        assert(payment_counts(model).drop_last() =~= payment_counts(customers_model(before)));
    } else {
        assert(spends(model) =~= Seq::empty());
        assert(payment_counts(model) =~= Seq::empty());
    }
}

/// The member is a customer since the earliest of the customers was created.
pub proof fn customer_since_the_earliest(
    customers: Vec<CustomerRow>,
    subs: Vec<SubRow>,
    m: MemberFacts,
)
    requires
        put_together(customers, subs, m),
    ensures
        match m.customer_created_at {
            Some(t) => {
                &&& exists|i: int|
                    0 <= i < customers@.len() && (#[trigger] customers@[i]).stripe_created_at
                        == Some(t)
                &&& forall|i: int|
                    0 <= i < customers@.len() ==> ((#[trigger] customers@[i]).stripe_created_at
                        matches Some(u) ==> t.instant() <= u.instant())
            },
            None => forall|i: int|
                0 <= i < customers@.len() ==> (#[trigger] customers@[i]).stripe_created_at is None,
        },
{
    let model = customers_model(customers@);
    let times = model.map_values(|c: CustomerRowModel| c.stripe_created_at);
    earliest_is_first(times);
    assert forall|i: int| 0 <= i < customers@.len() implies times[i] == (
    #[trigger] customers@[i]).stripe_created_at by {}
    match m.customer_created_at {
        Some(t) => {
            let i = choose|i: int| 0 <= i < times.len() && times[i] == Some(t);
            assert(customers@[i].stripe_created_at == Some(t));
            assert forall|i: int| 0 <= i < customers@.len() implies ((
            #[trigger] customers@[i]).stripe_created_at matches Some(u) ==> t.instant()
                <= u.instant()) by {
                assert(times[i] is Some ==> t.instant() <= times[i]->0.instant());
            }
        },
        None => {
            assert forall|i: int| 0 <= i < customers@.len() implies (
            #[trigger] customers@[i]).stripe_created_at is None by {
                assert(times[i] is None);
            }
        },
    }
}

proof fn lemma_first_known(
    r: Option<Seq<char>>,
    customers: Vec<CustomerRow>,
    of_model: spec_fn(CustomerRowModel) -> Option<Seq<char>>,
    what: spec_fn(CustomerRow) -> Option<Seq<char>>,
)
    requires
        r == first_text(customers_model(customers@).map_values(of_model)),
        forall|c: CustomerRow| of_model(#[trigger] c@) == what(c),
    ensures
        first_known_of(r, customers, what),
{
    let s = customers_model(customers@).map_values(of_model);
    lemma_first_text(s);
    assert forall|i: int| 0 <= i < customers@.len() implies s[i] == what(
        #[trigger] customers@[i],
    ) by {
        assert(s[i] == of_model(customers@[i]@));
    }
    match r {
        Some(t) => {
            let i = choose|i: int|
                {
                    &&& 0 <= i < s.len()
                    &&& #[trigger] s[i] == Some(t)
                    &&& forall|j: int| 0 <= j < i ==> #[trigger] s[j] is None
                };
            assert(what(customers@[i]) == Some(t));
            assert forall|j: int| 0 <= j < i implies what(#[trigger] customers@[j]) is None by {
                assert(s[j] is None);
            }
        },
        None => {
            assert forall|i: int| 0 <= i < customers@.len() implies what(
                #[trigger] customers@[i],
            ) is None by {
                assert(s[i] is None);
            }
        },
    }
}

/// The address and the country are those of the first customer that has one.
pub proof fn address_is_the_first_known(
    customers: Vec<CustomerRow>,
    subs: Vec<SubRow>,
    m: MemberFacts,
)
    requires
        put_together(customers, subs, m),
    ensures
        first_known_of(text_of(m.email), customers, |c: CustomerRow| text_of(c.email)),
        first_known_of(text_of(m.country_code), customers, |c: CustomerRow| text_of(c.country)),
{
    lemma_first_known(
        text_of(m.email),
        customers,
        |c: CustomerRowModel| c.email,
        |c: CustomerRow| text_of(c.email),
    );
    lemma_first_known(
        text_of(m.country_code),
        customers,
        |c: CustomerRowModel| c.country,
        |c: CustomerRow| text_of(c.country),
    );
}

/// The subscription is the first that goes on and has a currency.
pub open spec fn first_with_currency(subs: Seq<SubRow>, i: int) -> bool {
    &&& 0 <= i < subs.len()
    &&& goes_on(subs[i])
    &&& subs[i].currency is Some
    &&& forall|j: int| 0 <= j < i && goes_on(#[trigger] subs[j]) ==> subs[j].currency is None
}

proof fn lemma_first_currency(subs: Seq<SubRow>)
    ensures
        ({
            let found = first_text(
                active_subs(subs_model(subs)).map_values(|s: SubRowModel| s.currency),
            );
            &&& found is Some <==> exists|i: int| #[trigger] first_with_currency(subs, i)
            &&& forall|i: int| #[trigger]
                first_with_currency(subs, i) ==> found == text_of(subs[i].currency)
            &&& found is None ==> forall|i: int|
                0 <= i < subs.len() && goes_on(#[trigger] subs[i]) ==> subs[i].currency is None
        }),
    decreases subs.len(),
{
    let model = subs_model(subs);
    let f = |s: SubRowModel| s.currency;
    let a = active_subs(model);
    if subs.len() > 0 {
        let before = subs.drop_last();
        lemma_first_currency(before);
        assert(subs_model(before) =~= model.drop_last());
        assert(model.last() == subs.last()@);
        let b = active_subs(model.drop_last());
        let n = subs.len() - 1;
        assert forall|i: int| 0 <= i < n implies #[trigger] subs[i] == before[i] by {}
        if goes_on(subs.last()) {
            assert(a.map_values(f).drop_last() =~= b.map_values(f));
            assert(a.map_values(f).last() == text_of(subs[n].currency));
        }
        assert forall|i: int| 0 <= i < n implies first_with_currency(subs, i)
            == first_with_currency(before, i) by {
            assert forall|j: int| 0 <= j < i implies #[trigger] subs[j] == before[j] by {}
            if first_with_currency(subs, i) {
                assert forall|j: int| 0 <= j < i && goes_on(
                    #[trigger] before[j],
                ) implies before[j].currency is None by {
                    assert(goes_on(subs[j]));
                }
            }
        }
        let found = first_text(b.map_values(f));
        if found is Some {
            let i = choose|i: int| first_with_currency(before, i);
            assert(first_with_currency(subs, i));
            assert(!first_with_currency(subs, n)) by {
                assert(subs[i].currency is Some && goes_on(subs[i]));
            }
        } else {
            assert forall|i: int| 0 <= i < n && goes_on(#[trigger] subs[i]) implies subs[i].currency
                is None by {
                assert(goes_on(before[i]));
            }
            assert forall|i: int| 0 <= i < n implies !first_with_currency(subs, i) by {
                assert(!first_with_currency(before, i));
            }
            if goes_on(subs[n]) && subs[n].currency is Some {
                assert(first_with_currency(subs, n));
            }
        }
    } else {
        assert(a.map_values(f) =~= Seq::empty());
    }
}

/// The currency is that of the first customer that has one or, failing that, of
/// the first subscription that goes on and has one.
pub proof fn currency_is_the_first_known(
    customers: Vec<CustomerRow>,
    subs: Vec<SubRow>,
    m: MemberFacts,
)
    requires
        put_together(customers, subs, m),
    ensures
        (exists|i: int| 0 <= i < customers@.len() && (#[trigger] customers@[i]).currency is Some)
            ==> first_known_of(
            text_of(m.currency),
            customers,
            |c: CustomerRow| text_of(c.currency),
        ),
        (forall|i: int| 0 <= i < customers@.len() ==> (#[trigger] customers@[i]).currency is None)
            ==> {
            &&& forall|i: int| #[trigger]
                first_with_currency(subs@, i) ==> text_of(m.currency) == text_of(subs@[i].currency)
            &&& m.currency is Some ==> exists|i: int| #[trigger] first_with_currency(subs@, i)
        },
{
    let of_customers = first_text(
        customers_model(customers@).map_values(|c: CustomerRowModel| c.currency),
    );
    lemma_first_known(
        of_customers,
        customers,
        |c: CustomerRowModel| c.currency,
        |c: CustomerRow| text_of(c.currency),
    );
    lemma_first_currency(subs@);
}

/// The domain is what stands behind the last `@` of the address, its ASCII
/// letters in lower case; an address without an `@` has none, and neither has no
/// address.
pub proof fn domain_is_behind_the_sign(
    customers: Vec<CustomerRow>,
    subs: Vec<SubRow>,
    m: MemberFacts,
    local: Seq<char>,
    domain: Seq<char>,
)
    requires
        put_together(customers, subs, m),
        !domain.contains('@'),
    ensures
        m.email is None ==> m.email_domain is None,
        text_of(m.email) == Some(domain) ==> m.email_domain is None,
        text_of(m.email) == Some(local + seq!['@'] + domain) ==> {
            &&& m.email_domain is Some
            &&& m.email_domain->0@.len() == domain.len()
            &&& forall|i: int|
                0 <= i < domain.len() ==> #[trigger] m.email_domain->0@[i] == if 'A' <= domain[i]
                    <= 'Z' {
                    (domain[i] as u32 + 32) as char
                } else {
                    domain[i]
                }
        },
{
    lemma_cut_last_at(local, '@', domain);
    lemma_cut_last_none(domain, '@');
}

} // verus!
