//! What a rule admits, condition by condition.
//!
//! Each law speaks of what a function was given and of what it gave, or of how
//! two rules relate.
use vstd::prelude::*;
use crate::clock::{clock_showed, days_between, Timestamp};
use crate::json::{item_strings, Json};
use crate::models::condition::{Condition, ConditionModel, ConditionOperator, ConditionTarget};
use crate::models::facts::{Facts, FactsModel};
use crate::models::rule::{RuleModel, RuleTree};
use crate::services::condition_eval::{
    evaluate, evaluate_single, group_holds, overlap, rule_holds,
};
use crate::services::member_facts::FactsRow;
use crate::text::{has_substring, occurs_at, text_of, texts};

verus! {

// ---------------------------------------------------------------------------
// Operators
// ---------------------------------------------------------------------------

/// The number stands to the literal as the operator says. Both ends of an
/// interval belong to it.
pub open spec fn number_passes(c: Condition, a: int) -> bool {
    match (c.operator, c.value@) {
        (ConditionOperator::Eq, Json::Int(n)) => a == n,
        (ConditionOperator::Neq, Json::Int(n)) => !(a == n),
        (ConditionOperator::Gt, Json::Int(n)) => n < a,
        (ConditionOperator::Gte, Json::Int(n)) => !(a < n),
        (ConditionOperator::Lt, Json::Int(n)) => a < n,
        (ConditionOperator::Lte, Json::Int(n)) => !(n < a),
        (ConditionOperator::Between, Json::Int(n)) => match c.value_end {
            Some(end) => end@ matches Json::Int(m) && i64::MIN <= m <= i64::MAX && !(a < n) && !(m
                < a),
            None => false,
        },
        _ => false,
    }
}

/// The text is one of the texts among the items.
pub open spec fn is_item(items: Seq<Json>, t: Seq<char>) -> bool {
    exists|i: int| 0 <= i < items.len() && #[trigger] items[i] == Json::Str(t)
}

/// The text is a part of the other.
pub open spec fn is_part(part: Seq<char>, whole: Seq<char>) -> bool {
    exists|k: int|
        0 <= k <= k + part.len() <= whole.len() && #[trigger] whole.subrange(
            k,
            k + part.len() as int,
        ) == part
}

/// The text stands to the literal as the operator says; one that is not known
/// only differs. Patterns are left open.
pub open spec fn text_passes(c: Condition, a: Option<Seq<char>>) -> bool {
    match (a, c.operator, c.value@) {
        (None, op, _) => op is Neq,
        (Some(t), ConditionOperator::Eq, Json::Str(s)) => t == s,
        (Some(t), ConditionOperator::Neq, Json::Str(s)) => t != s,
        (Some(t), ConditionOperator::Contains, Json::Str(s)) => is_part(s, t),
        (Some(t), ConditionOperator::In, Json::Array(items)) => is_item(items, t),
        (Some(t), ConditionOperator::NotIn, Json::Array(items)) => !is_item(items, t),
        _ => arbitrary(),
    }
}

/// The list stands to the literal as the operator says.
pub open spec fn list_passes(c: Condition, list: Seq<Seq<char>>) -> bool {
    match (c.operator, c.value@) {
        (ConditionOperator::Eq, Json::Str(s)) => list.contains(s),
        (ConditionOperator::In, Json::Array(items)) => exists|t: Seq<char>| #[trigger]
            list.contains(t) && is_item(items, t),
        (ConditionOperator::NotIn, Json::Array(items)) => forall|t: Seq<char>| #[trigger]
            list.contains(t) ==> !is_item(items, t),
        _ => arbitrary(),
    }
}

proof fn lemma_items(items: Seq<Json>, t: Seq<char>)
    ensures
        item_strings(items).contains(t) == is_item(items, t),
    decreases items.len(),
{
    let all = item_strings(items);
    if items.len() > 0 {
        let before = items.drop_last();
        let some = item_strings(before);
        lemma_items(before, t);
        if is_item(items, t) {
            let i = choose|i: int| 0 <= i < items.len() && #[trigger] items[i] == Json::Str(t);
            if i < before.len() {
                assert(before[i] == Json::Str(t));
                let k = choose|k: int| 0 <= k < some.len() && some[k] == t;
                assert(all[k] == t);
            } else {
                assert(all[all.len() - 1] == t);
            }
        }
        if all.contains(t) {
            let k = choose|k: int| 0 <= k < all.len() && all[k] == t;
            if k < some.len() {
                assert(some[k] == t);
                assert(some.contains(t));
                let i = choose|i: int| 0 <= i < before.len() && #[trigger] before[i] == Json::Str(t);
                assert(items[i] == Json::Str(t));
            } else {
                assert(items[items.len() - 1] == Json::Str(t));
            }
        }
    }
}

proof fn lemma_part(part: Seq<char>, whole: Seq<char>)
    ensures
        has_substring(whole, part) == is_part(part, whole),
{
    if has_substring(whole, part) {
        let k = choose|k: int| occurs_at(whole, part, k);
        assert(whole.subrange(k, k + part.len() as int) == part);
    }
    if is_part(part, whole) {
        let k = choose|k: int|
            0 <= k <= k + part.len() <= whole.len() && #[trigger] whole.subrange(
                k,
                k + part.len() as int,
            ) == part;
        assert(occurs_at(whole, part, k));
    }
}

// ---------------------------------------------------------------------------
// Targets
// ---------------------------------------------------------------------------

/// A condition on a flag is decided by the flag that the target names: it equals
/// the literal.
pub proof fn flag_is_that_of_the_target(
    c: Condition,
    f: Facts,
    now: Timestamp,
    r: bool,
    wanted: bool,
)
    requires
        call_ensures(evaluate_single, (&c, &f, now), r),
        c.operator is Eq,
        c.value@ == Json::Bool(wanted),
    ensures
        c.target is HasActiveSubscription ==> r == (f.has_active_subscription == wanted),
        c.target is IsTrialing ==> r == (f.is_trialing == wanted),
        c.target is IsPastDue ==> r == (f.is_past_due == wanted),
        c.target is CancelsAtPeriodEnd ==> r == (f.cancels_at_period_end == wanted),
        c.target is IsCustomer ==> r == (f.is_customer == wanted),
        c.target is IsDelinquent ==> r == (f.is_delinquent == wanted),
{
}

/// A condition on a number is decided by the number that the target names.
pub proof fn number_is_that_of_the_target(c: Condition, f: Facts, now: Timestamp, r: bool)
    requires
        call_ensures(evaluate_single, (&c, &f, now), r),
        c.value@ matches Json::Int(n) && i64::MIN <= n <= i64::MAX,
    ensures
        c.target is ActiveSubscriptionCount ==> r == number_passes(
            c,
            f.active_subscription_count as int,
        ),
        c.target is PlanAmount ==> r == number_passes(c, f.plan_amount_cents as int),
        c.target is TotalMrr ==> r == number_passes(c, f.total_mrr_cents as int),
        c.target is LifetimeSpend ==> r == number_passes(c, f.lifetime_spend_cents as int),
        c.target is SuccessfulPayments ==> r == number_passes(c, f.successful_payments as int),
{
}

/// The nanoseconds of a day.
pub open spec fn day() -> int {
    24int * 60 * 60 * 1_000_000_000
}

/// The number is that of the whole days in a span of time, a part of a day
/// dropped.
pub open spec fn whole_days_of(span: int, days: int) -> bool {
    if span >= 0 {
        days * day() <= span < (days + 1) * day()
    } else {
        (days - 1) * day() < span <= days * day()
    }
}

proof fn lemma_days(from: Timestamp, to: Timestamp)
    ensures
        whole_days_of(to.instant() - from.instant(), days_between(from, to)),
{
    let elapsed = to.instant() - from.instant();
    let d = day();
    assert(d == crate::clock::NANOS_PER_DAY as int);
    if elapsed >= 0 {
        let q = elapsed / d;
        assert(q * d <= elapsed < (q + 1) * d) by (nonlinear_arith)
            requires
                q == elapsed / d,
                d == 86_400_000_000_000,
        ;
    } else {
        let e = -elapsed;
        let q = e / d;
        assert(q * d <= e < (q + 1) * d) by (nonlinear_arith)
            requires
                q == e / d,
                d == 86_400_000_000_000,
        ;
        let n = -q;
        assert((n - 1) * d < elapsed <= n * d) by (nonlinear_arith)
            requires
                q * d <= e < (q + 1) * d,
                n == -q,
                e == -elapsed,
        ;
    }
}

/// A condition on days is decided by the whole days from the start of the
/// subscription, or from when the customer was created, until now, and from now
/// until the end of the period. Without that point in time it does not hold.
pub proof fn days_are_those_of_the_target(
    c: Condition,
    f: Facts,
    now: Timestamp,
    r: bool,
    days: int,
)
    requires
        call_ensures(evaluate_single, (&c, &f, now), r),
        c.value@ matches Json::Int(n) && i64::MIN <= n <= i64::MAX,
    ensures
        c.target is SubscriptionAgeDays ==> match f.subscription_started_at {
            Some(t) => whole_days_of(now.instant() - t.instant(), days) ==> r == number_passes(
                c,
                days,
            ),
            None => !r,
        },
        c.target is CustomerAgeDays ==> match f.customer_created_at {
            Some(t) => whole_days_of(now.instant() - t.instant(), days) ==> r == number_passes(
                c,
                days,
            ),
            None => !r,
        },
        c.target is DaysUntilRenewal ==> match f.current_period_end {
            Some(t) => whole_days_of(t.instant() - now.instant(), days) ==> r == number_passes(
                c,
                days,
            ),
            None => !r,
        },
{
    match (c.target, f.subscription_started_at) {
        (ConditionTarget::SubscriptionAgeDays, Some(t)) => lemma_one_count(t, now, days),
        _ => {},
    }
    match (c.target, f.customer_created_at) {
        (ConditionTarget::CustomerAgeDays, Some(t)) => lemma_one_count(t, now, days),
        _ => {},
    }
    match (c.target, f.current_period_end) {
        (ConditionTarget::DaysUntilRenewal, Some(t)) => lemma_one_count(now, t, days),
        _ => {},
    }
}

proof fn lemma_one_count(from: Timestamp, to: Timestamp, days: int)
    ensures
        whole_days_of(to.instant() - from.instant(), days) ==> days == days_between(from, to),
{
    let span = to.instant() - from.instant();
    let other = days_between(from, to);
    lemma_days(from, to);
    if whole_days_of(span, days) {
        let d = day();
        assert(days == other) by (nonlinear_arith)
            requires
                d == 86_400_000_000_000,
                span >= 0 ==> days * d <= span < (days + 1) * d && other * d <= span < (other + 1)
                    * d,
                span < 0 ==> (days - 1) * d < span <= days * d && (other - 1) * d < span <= other
                    * d,
        ;
    }
}

/// The literal is of the kind that the operator compares a text with.
pub open spec fn text_literal(c: Condition) -> bool {
    match c.operator {
        ConditionOperator::Eq | ConditionOperator::Neq | ConditionOperator::Contains => c.value@
            is Str,
        ConditionOperator::In | ConditionOperator::NotIn => c.value@ is Array,
        _ => false,
    }
}

/// A condition on a text is decided by the text that the target names.
pub proof fn text_is_that_of_the_target(c: Condition, f: Facts, now: Timestamp, r: bool)
    requires
        call_ensures(evaluate_single, (&c, &f, now), r),
        text_literal(c),
    ensures
        c.target is SubscriptionStatus ==> r == text_passes(c, text_of(f.subscription_status)),
        c.target is BillingInterval ==> r == text_passes(c, text_of(f.billing_interval)),
        c.target is CountryCode ==> r == text_passes(c, text_of(f.country_code)),
        c.target is Currency ==> r == text_passes(c, text_of(f.currency)),
        c.target is EmailDomain ==> r == text_passes(c, text_of(f.email_domain)),
{
    lemma_text(c, text_of(f.subscription_status));
    lemma_text(c, text_of(f.billing_interval));
    lemma_text(c, text_of(f.country_code));
    lemma_text(c, text_of(f.currency));
    lemma_text(c, text_of(f.email_domain));
}

proof fn lemma_text(c: Condition, a: Option<Seq<char>>)
    requires
        text_literal(c),
    ensures
        crate::services::condition_eval::string_holds(c@, a) == text_passes(c, a),
{
    match (a, c.value@) {
        (Some(t), Json::Str(s)) => lemma_part(s, t),
        (Some(t), Json::Array(items)) => lemma_items(items, t),
        _ => {},
    }
}

/// The literal is of the kind that the operator compares a list with.
pub open spec fn list_literal(c: Condition) -> bool {
    match c.operator {
        ConditionOperator::Eq => c.value@ is Str,
        ConditionOperator::In | ConditionOperator::NotIn => c.value@ is Array,
        _ => false,
    }
}

/// A condition on a list is decided by the list that the target names.
pub proof fn list_is_that_of_the_target(c: Condition, f: Facts, now: Timestamp, r: bool)
    requires
        call_ensures(evaluate_single, (&c, &f, now), r),
        list_literal(c),
    ensures
        c.target is SubscribedToProduct ==> r == list_passes(c, texts(f.product_ids@)),
        c.target is SubscribedToPrice ==> r == list_passes(c, texts(f.price_ids@)),
{
    lemma_list(c, texts(f.product_ids@));
    lemma_list(c, texts(f.price_ids@));
}

proof fn lemma_list(c: Condition, list: Seq<Seq<char>>)
    requires
        list_literal(c),
    ensures
        crate::services::condition_eval::list_holds(c@, list) == list_passes(c, list),
{
    match c.value@ {
        Json::Array(items) => {
            let wanted = item_strings(items);
            assert forall|t: Seq<char>| wanted.contains(t) == #[trigger] is_item(items, t) by {
                lemma_items(items, t);
            }
            if overlap(wanted, list) {
                let t = choose|t: Seq<char>| wanted.contains(t) && list.contains(t);
                assert(list.contains(t) && is_item(items, t));
            }
            if exists|t: Seq<char>| #[trigger] list.contains(t) && is_item(items, t) {
                let t = choose|t: Seq<char>| #[trigger] list.contains(t) && is_item(items, t);
                assert(wanted.contains(t) && list.contains(t));
            }
        },
        _ => {},
    }
}

// ---------------------------------------------------------------------------
// Groups and rules
// ---------------------------------------------------------------------------

/// A rule that grants on any relation admits everybody. Another without groups
/// admits nobody, and one group more admits, beside those admitted before, those
/// whom the group admits.
pub proof fn groups_are_alternatives(
    r: RuleModel,
    g: Seq<ConditionModel>,
    f: FactsModel,
    now: Timestamp,
)
    ensures
        r.grant_on_any_relation ==> rule_holds(r, f, now),
        !r.grant_on_any_relation && r.groups.len() == 0 ==> !rule_holds(r, f, now),
        !r.grant_on_any_relation ==> (rule_holds(
            RuleModel { groups: r.groups.push(g), ..r },
            f,
            now,
        ) <==> rule_holds(r, f, now) || group_holds(g, f, now)),
{
    let wider = RuleModel { groups: r.groups.push(g), ..r };
    let more = wider.groups;
    if !r.grant_on_any_relation {
        if group_holds(g, f, now) {
            assert(wider.groups[more.len() - 1] == g);
            assert(group_holds(wider.groups[more.len() - 1], f, now));
        }
        if rule_holds(r, f, now) {
            let i = choose|i: int|
                0 <= i < r.groups.len() && group_holds(#[trigger] r.groups[i], f, now);
            assert(wider.groups[i] == r.groups[i]);
            assert(group_holds(wider.groups[i], f, now));
        }
        if rule_holds(wider, f, now) {
            let i = choose|i: int| 0 <= i < more.len() && group_holds(#[trigger] more[i], f, now);
            if i < r.groups.len() {
                assert(r.groups[i] == more[i]);
            }
        }
    }
}

/// A group without conditions admits nobody, and one condition more admits only
/// those of the group whom the condition admits.
pub proof fn conditions_restrict(
    g: Seq<ConditionModel>,
    c: ConditionModel,
    f: FactsModel,
    now: Timestamp,
)
    ensures
        g.len() == 0 ==> !group_holds(g, f, now),
        group_holds(g.push(c), f, now) <==> (g.len() == 0 || group_holds(g, f, now))
            && crate::services::condition_eval::condition_holds(c, f, now),
{
    let more = g.push(c);
    if group_holds(more, f, now) {
        assert(more[more.len() - 1] == c);
        assert forall|k: int|
            0 <= k < g.len() implies crate::services::condition_eval::condition_holds(
            #[trigger] g[k],
            f,
            now,
        ) by {
            assert(more[k] == g[k]);
        }
    }
}

/// A rule is decided at a point in time that the clock showed.
pub proof fn rule_is_decided_now(tree: RuleTree, f: Facts, r: bool)
    requires
        call_ensures(evaluate, (&tree, &f), r),
    ensures
        exists|now: Timestamp| #[trigger] clock_showed(now) && r == rule_holds(tree@, f@, now),
{
    let now = choose|now: Timestamp|
        clock_showed(now) && r == #[trigger] rule_holds(tree@, f@, now);
    assert(clock_showed(now));
}

// ---------------------------------------------------------------------------
// Stored facts
// ---------------------------------------------------------------------------

/// Facts that were stored are read field by field.
pub proof fn stored_facts_are_read_as_they_are(row: FactsRow)
    ensures
        ({
            let f = <Facts as vstd::std_specs::convert::FromSpec<FactsRow>>::from_spec(row);
            &&& f.is_customer == row.is_customer
            &&& f.customer_created_at == row.customer_created_at
            &&& f.country_code == row.country_code
            &&& f.currency == row.currency
            &&& f.email_domain == row.email_domain
            &&& f.is_delinquent == row.is_delinquent
            &&& f.lifetime_spend_cents == row.lifetime_spend_cents
            &&& f.successful_payments == row.successful_payments
            &&& f.has_active_subscription == row.has_active_subscription
            &&& f.active_subscription_count == row.active_subscription_count
            &&& f.subscription_status == row.subscription_status
            &&& f.is_trialing == row.is_trialing
            &&& f.is_past_due == row.is_past_due
            &&& f.cancels_at_period_end == row.cancels_at_period_end
            &&& f.plan_amount_cents == row.plan_amount_cents
            &&& f.billing_interval == row.billing_interval
            &&& f.subscription_started_at == row.subscription_started_at
            &&& f.current_period_end == row.current_period_end
            &&& f.total_mrr_cents == row.total_mrr_cents
            &&& f.product_ids == row.product_ids
            &&& f.price_ids == row.price_ids
        }),
{
}

} // verus!
