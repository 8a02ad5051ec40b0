//! Whether a rule admits a member.
//!
//! A rule is decided from one member's facts and the current time, without any
//! I/O. `crate::services::rule_sql` states the same rule for the database.
use vstd::prelude::*;
use crate::clock::{
    clock_showed, clock_time, days_between, utc_now, whole_days, Timestamp,
};
use crate::json::{json_bool, json_i64, json_str, json_strings, JsonValue};
use crate::models::condition::{
    operator_valid_for, target_kind, Condition, ConditionModel, ConditionOperator, ConditionTarget,
};
use crate::models::facts::{Facts, FactsModel};
use crate::models::rule::{ConditionGroup, RuleModel, RuleTree};
use crate::text::{has_substring, occurs_at, str_contains, str_eq, text_of, texts, texts_contain};

verus! {

/// The most bytes that a compiled pattern, and its cache, may take.
pub const REGEX_SIZE_LIMIT: usize = 1_048_576;

/// Whether a pattern matches somewhere in a text; none when the pattern is not
/// one or takes more bytes than the limit on a machine with words of the given
/// width.
pub uninterp spec fn regex_outcome(
    pattern: Seq<char>,
    text: Seq<char>,
    size_limit: usize,
    word_bits: u32,
) -> Option<bool>;

/// `regex::RegexBuilder::build` with both size limits, and `Regex::is_match` of
/// what was built. How many bytes a pattern takes depends on the width of a
/// machine word as well.
#[verifier::external_body]
fn regex_search(pattern: &str, text: &str, size_limit: usize) -> (r: Option<bool>)
    ensures
        r == regex_outcome(pattern@, text@, size_limit, usize::BITS),
{
    regex::RegexBuilder::new(pattern)
        .size_limit(size_limit)
        .dfa_size_limit(size_limit)
        .build()
        .ok()
        .map(|re| re.is_match(text))
}

/// A boolean fact is only compared for equality.
pub open spec fn bool_holds(c: ConditionModel, actual: bool) -> bool {
    c.operator is Eq && json_bool(c.value) == Some(actual)
}

/// A number that is not known satisfies no condition.
pub open spec fn int_holds(c: ConditionModel, actual: Option<int>) -> bool {
    match (actual, json_i64(c.value)) {
        (Some(a), Some(n)) => match c.operator {
            ConditionOperator::Eq => a == n,
            ConditionOperator::Neq => a != n,
            ConditionOperator::Gt => a > n,
            ConditionOperator::Gte => a >= n,
            ConditionOperator::Lt => a < n,
            ConditionOperator::Lte => a <= n,
            ConditionOperator::Between => match c.value_end {
                Some(end) => match json_i64(end) {
                    Some(hi) => n <= a <= hi,
                    None => false,
                },
                None => false,
            },
            _ => false,
        },
        _ => false,
    }
}

/// A string that is not known satisfies `neq` alone.
pub open spec fn string_holds(c: ConditionModel, actual: Option<Seq<char>>) -> bool {
    match actual {
        None => c.operator is Neq,
        Some(a) => match c.operator {
            ConditionOperator::Eq => json_str(c.value) == Some(a),
            ConditionOperator::Neq => json_str(c.value) is Some && json_str(c.value) != Some(a),
            ConditionOperator::Contains => json_str(c.value) matches Some(s) && has_substring(a, s),
            ConditionOperator::Regex => json_str(c.value) matches Some(p) && regex_outcome(
                p,
                a,
                REGEX_SIZE_LIMIT,
                usize::BITS,
            ) == Some(true),
            ConditionOperator::In => json_strings(c.value).contains(a),
            ConditionOperator::NotIn => !json_strings(c.value).contains(a),
            _ => false,
        },
    }
}

/// The two lists have a string in common.
pub open spec fn overlap(a: Seq<Seq<char>>, b: Seq<Seq<char>>) -> bool {
    exists|s: Seq<char>| a.contains(s) && b.contains(s)
}

/// The operators of a set of strings mean membership.
pub open spec fn list_holds(c: ConditionModel, actual: Seq<Seq<char>>) -> bool {
    match c.operator {
        ConditionOperator::Eq => json_str(c.value) matches Some(s) && actual.contains(s),
        ConditionOperator::In => overlap(json_strings(c.value), actual),
        ConditionOperator::NotIn => !overlap(json_strings(c.value), actual),
        _ => false,
    }
}

/// Whole days from a point in time until now.
pub open spec fn age(since: Option<Timestamp>, now: Timestamp) -> Option<int> {
    match since {
        Some(t) => Some(days_between(t, now)),
        None => None,
    }
}

/// Whole days from now until a point in time.
pub open spec fn ahead(until: Option<Timestamp>, now: Timestamp) -> Option<int> {
    match until {
        Some(t) => Some(days_between(now, t)),
        None => None,
    }
}

/// The member satisfies the condition at the given time.
pub open spec fn condition_holds(c: ConditionModel, f: FactsModel, now: Timestamp) -> bool {
    match c.target {
        ConditionTarget::HasActiveSubscription => bool_holds(c, f.has_active_subscription),
        ConditionTarget::IsTrialing => bool_holds(c, f.is_trialing),
        ConditionTarget::IsPastDue => bool_holds(c, f.is_past_due),
        ConditionTarget::CancelsAtPeriodEnd => bool_holds(c, f.cancels_at_period_end),
        ConditionTarget::IsCustomer => bool_holds(c, f.is_customer),
        ConditionTarget::IsDelinquent => bool_holds(c, f.is_delinquent),
        ConditionTarget::ActiveSubscriptionCount => int_holds(
            c,
            Some(f.active_subscription_count as int),
        ),
        ConditionTarget::PlanAmount => int_holds(c, Some(f.plan_amount_cents as int)),
        ConditionTarget::SubscriptionAgeDays => int_holds(c, age(f.subscription_started_at, now)),
        ConditionTarget::DaysUntilRenewal => int_holds(c, ahead(f.current_period_end, now)),
        ConditionTarget::TotalMrr => int_holds(c, Some(f.total_mrr_cents as int)),
        ConditionTarget::CustomerAgeDays => int_holds(c, age(f.customer_created_at, now)),
        ConditionTarget::LifetimeSpend => int_holds(c, Some(f.lifetime_spend_cents as int)),
        ConditionTarget::SuccessfulPayments => int_holds(c, Some(f.successful_payments as int)),
        ConditionTarget::SubscriptionStatus => string_holds(c, f.subscription_status),
        ConditionTarget::BillingInterval => string_holds(c, f.billing_interval),
        ConditionTarget::CountryCode => string_holds(c, f.country_code),
        ConditionTarget::Currency => string_holds(c, f.currency),
        ConditionTarget::EmailDomain => string_holds(c, f.email_domain),
        ConditionTarget::SubscribedToProduct => list_holds(c, f.product_ids),
        ConditionTarget::SubscribedToPrice => list_holds(c, f.price_ids),
    }
}

/// A group admits the member when it has conditions and all of them hold.
pub open spec fn group_holds(g: Seq<ConditionModel>, f: FactsModel, now: Timestamp) -> bool {
    &&& g.len() > 0
    &&& forall|k: int| 0 <= k < g.len() ==> condition_holds(#[trigger] g[k], f, now)
}

/// A rule admits the member when it grants on any relation or some group does.
pub open spec fn rule_holds(r: RuleModel, f: FactsModel, now: Timestamp) -> bool {
    ||| r.grant_on_any_relation
    ||| exists|i: int| 0 <= i < r.groups.len() && group_holds(#[trigger] r.groups[i], f, now)
}

/// The condition compares a number of days that passes with the clock.
pub open spec fn reads_clock(c: ConditionModel) -> bool {
    ||| c.target is SubscriptionAgeDays
    ||| c.target is DaysUntilRenewal
    ||| c.target is CustomerAgeDays
}

/// Some condition of the rule compares a number of days.
pub open spec fn rule_reads_clock(r: RuleModel) -> bool {
    !r.grant_on_any_relation && exists|i: int, k: int|
        0 <= i < r.groups.len() && 0 <= k < r.groups[i].len() && reads_clock(
            #[trigger] r.groups[i][k],
        )
}

/// A rule that compares no number of days is decided without the clock.
pub proof fn rule_without_days_ignores_the_clock(
    r: RuleModel,
    f: FactsModel,
    now: Timestamp,
    later: Timestamp,
)
    requires
        !rule_reads_clock(r),
    ensures
        rule_holds(r, f, now) == rule_holds(r, f, later),
{
    if !r.grant_on_any_relation {
        assert forall|i: int| 0 <= i < r.groups.len() implies group_holds(
            #[trigger] r.groups[i],
            f,
            now,
        ) == group_holds(r.groups[i], f, later) by {
            assert forall|k: int| 0 <= k < r.groups[i].len() implies condition_holds(
                #[trigger] r.groups[i][k],
                f,
                now,
            ) == condition_holds(r.groups[i][k], f, later) by {
                assert(!reads_clock(r.groups[i][k]));
            }
            if group_holds(r.groups[i], f, now) {
                assert forall|k: int| 0 <= k < r.groups[i].len() implies condition_holds(
                    #[trigger] r.groups[i][k],
                    f,
                    later,
                ) by {
                    assert(condition_holds(r.groups[i][k], f, now));
                }
            }
            if group_holds(r.groups[i], f, later) {
                assert forall|k: int| 0 <= k < r.groups[i].len() implies condition_holds(
                    #[trigger] r.groups[i][k],
                    f,
                    now,
                ) by {
                    assert(condition_holds(r.groups[i][k], f, later));
                }
            }
        }
    }
}

/// A rule that grants on no relation and has no group with a condition admits
/// nobody.
pub proof fn rule_without_conditions_admits_nobody(r: RuleModel, f: FactsModel, now: Timestamp)
    requires
        !r.grant_on_any_relation,
        forall|i: int| 0 <= i < r.groups.len() ==> (#[trigger] r.groups[i]).len() == 0,
    ensures
        !rule_holds(r, f, now),
{
}

/// An operator that means nothing for the target's kind of data admits nobody,
/// whatever the condition is compared with.
pub proof fn invalid_operator_admits_nobody(c: ConditionModel, f: FactsModel, now: Timestamp)
    requires
        !operator_valid_for(c.operator, target_kind(c.target)),
    ensures
        !condition_holds(c, f, now),
{
}

/// The condition with another operator.
pub open spec fn with_operator(c: ConditionModel, op: ConditionOperator) -> ConditionModel {
    ConditionModel { operator: op, ..c }
}

/// A known number and a number to compare it with are in exactly one of the
/// three orders, and the other operators are made of these. Both ends of an
/// interval belong to it.
pub proof fn numbers_are_ordered(c: ConditionModel, a: int, n: i64)
    requires
        json_i64(c.value) == Some(n),
    ensures
        int_holds(with_operator(c, ConditionOperator::Lt), Some(a)) <==> a < n,
        int_holds(with_operator(c, ConditionOperator::Eq), Some(a)) <==> a == n,
        int_holds(with_operator(c, ConditionOperator::Gt), Some(a)) <==> a > n,
        int_holds(with_operator(c, ConditionOperator::Gte), Some(a)) <==> !int_holds(
            with_operator(c, ConditionOperator::Lt),
            Some(a),
        ),
        int_holds(with_operator(c, ConditionOperator::Lte), Some(a)) <==> !int_holds(
            with_operator(c, ConditionOperator::Gt),
            Some(a),
        ),
        int_holds(with_operator(c, ConditionOperator::Neq), Some(a)) <==> !int_holds(
            with_operator(c, ConditionOperator::Eq),
            Some(a),
        ),
        int_holds(with_operator(c, ConditionOperator::Between), Some(a)) <==> (c.value_end
            matches Some(end) && json_i64(end) matches Some(hi) && n <= a <= hi),
{
}

/// A number that is not known, or is compared with something else than a number,
/// satisfies no condition.
pub proof fn missing_numbers_satisfy_nothing(c: ConditionModel, actual: Option<int>)
    requires
        actual is None || json_i64(c.value) is None,
    ensures
        !int_holds(c, actual),
{
}

/// `not_in` is the opposite of `in`, and `neq`, of a text, that of `eq`. A text
/// contains what it equals. A text that is not known satisfies `neq` alone. A
/// pattern that cannot be built matches nothing.
pub proof fn texts_are_matched_consistently(c: ConditionModel, a: Seq<char>)
    ensures
        string_holds(with_operator(c, ConditionOperator::NotIn), Some(a)) <==> !string_holds(
            with_operator(c, ConditionOperator::In),
            Some(a),
        ),
        json_str(c.value) is Some ==> (string_holds(
            with_operator(c, ConditionOperator::Neq),
            Some(a),
        ) <==> !string_holds(with_operator(c, ConditionOperator::Eq), Some(a))),
        string_holds(with_operator(c, ConditionOperator::Eq), Some(a)) ==> string_holds(
            with_operator(c, ConditionOperator::Contains),
            Some(a),
        ),
        string_holds(c, None) <==> c.operator is Neq,
        json_str(c.value) matches Some(p) ==> regex_outcome(p, a, REGEX_SIZE_LIMIT, usize::BITS)
            is None ==> !string_holds(with_operator(c, ConditionOperator::Regex), Some(a)),
{
    if json_str(c.value) == Some(a) {
        assert(a.subrange(0, a.len() as int) =~= a);
        assert(occurs_at(a, a, 0));
    }
}

fn bool_match(c: &Condition, actual: bool) -> (r: bool)
    ensures
        r == bool_holds(c@, actual),
{
    match c.operator {
        ConditionOperator::Eq => match c.value.as_bool() {
            Some(v) => v == actual,
            None => false,
        },
        _ => false,
    }
}

/// Whether a number satisfies a condition.
pub fn int_match(c: &Condition, actual: Option<i64>) -> (r: bool)
    ensures
        r == int_holds(
            c@,
            match actual {
                Some(a) => Some(a as int),
                None => None,
            },
        ),
{
    match (actual, c.value.as_i64()) {
        (Some(a), Some(n)) => match c.operator {
            ConditionOperator::Eq => a == n,
            ConditionOperator::Neq => a != n,
            ConditionOperator::Gt => a > n,
            ConditionOperator::Gte => a >= n,
            ConditionOperator::Lt => a < n,
            ConditionOperator::Lte => a <= n,
            ConditionOperator::Between => match &c.value_end {
                Some(end) => match end.as_i64() {
                    Some(hi) => a >= n && a <= hi,
                    None => false,
                },
                None => false,
            },
            _ => false,
        },
        _ => false,
    }
}

/// Whether a text satisfies a condition.
pub fn string_match(c: &Condition, actual: &Option<String>) -> (r: bool)
    ensures
        r == string_holds(c@, text_of(*actual)),
{
    match actual {
        None => match c.operator {
            ConditionOperator::Neq => true,
            _ => false,
        },
        Some(a) => match c.operator {
            ConditionOperator::Eq => match c.value.as_str() {
                Some(s) => str_eq(a.as_str(), s),
                None => false,
            },
            ConditionOperator::Neq => match c.value.as_str() {
                Some(s) => !str_eq(a.as_str(), s),
                None => false,
            },
            ConditionOperator::Contains => match c.value.as_str() {
                Some(s) => str_contains(a.as_str(), s),
                None => false,
            },
            ConditionOperator::Regex => match c.value.as_str() {
                Some(pattern) => match regex_search(pattern, a.as_str(), REGEX_SIZE_LIMIT) {
                    Some(found) => found,
                    None => false,
                },
                None => false,
            },
            ConditionOperator::In => texts_contain(&c.value.strings(), a.as_str()),
            ConditionOperator::NotIn => !texts_contain(&c.value.strings(), a.as_str()),
            _ => false,
        },
    }
}

fn any_overlap(value: &JsonValue, actual: &Vec<String>) -> (r: bool)
    ensures
        r == overlap(json_strings(value@), texts(actual@)),
{
    let wanted = value.strings();
    let mut i: usize = 0;
    while i < wanted.len()
        invariant
            texts(wanted@) == json_strings(value@),
            i <= wanted.len(),
            forall|k: int| 0 <= k < i ==> !texts(actual@).contains(#[trigger] texts(wanted@)[k]),
        decreases wanted.len() - i,
    {
        if texts_contain(actual, wanted[i].as_str()) {
            proof {
                assert(texts(wanted@)[i as int] == wanted@[i as int]@);
                assert(texts(wanted@).contains(wanted@[i as int]@));
            }
            return true;
        }
        i = i + 1;
    }
    false
}

fn stringlist_match(c: &Condition, actual: &Vec<String>) -> (r: bool)
    ensures
        r == list_holds(c@, texts(actual@)),
{
    match c.operator {
        ConditionOperator::Eq => match c.value.as_str() {
            Some(s) => texts_contain(actual, s),
            None => false,
        },
        ConditionOperator::In => any_overlap(&c.value, actual),
        ConditionOperator::NotIn => !any_overlap(&c.value, actual),
        _ => false,
    }
}

fn days_since(ts: Option<Timestamp>, now: Timestamp) -> (r: Option<i64>)
    ensures
        match r {
            Some(d) => age(ts, now) == Some(d as int),
            None => age(ts, now) is None,
        },
{
    match ts {
        Some(t) => Some(whole_days(t, now)),
        None => None,
    }
}

fn days_until(ts: Option<Timestamp>, now: Timestamp) -> (r: Option<i64>)
    ensures
        match r {
            Some(d) => ahead(ts, now) == Some(d as int),
            None => ahead(ts, now) is None,
        },
{
    match ts {
        Some(t) => Some(whole_days(now, t)),
        None => None,
    }
}

/// Decides one condition at the given time.
pub fn evaluate_single(c: &Condition, f: &Facts, now: Timestamp) -> (r: bool)
    ensures
        r == condition_holds(c@, f@, now),
{
    match c.target {
        ConditionTarget::HasActiveSubscription => bool_match(c, f.has_active_subscription),
        ConditionTarget::IsTrialing => bool_match(c, f.is_trialing),
        ConditionTarget::IsPastDue => bool_match(c, f.is_past_due),
        ConditionTarget::CancelsAtPeriodEnd => bool_match(c, f.cancels_at_period_end),
        ConditionTarget::IsCustomer => bool_match(c, f.is_customer),
        ConditionTarget::IsDelinquent => bool_match(c, f.is_delinquent),
        ConditionTarget::ActiveSubscriptionCount => int_match(
            c,
            Some(f.active_subscription_count),
        ),
        ConditionTarget::PlanAmount => int_match(c, Some(f.plan_amount_cents)),
        ConditionTarget::SubscriptionAgeDays => int_match(
            c,
            days_since(f.subscription_started_at, now),
        ),
        ConditionTarget::DaysUntilRenewal => int_match(c, days_until(f.current_period_end, now)),
        ConditionTarget::TotalMrr => int_match(c, Some(f.total_mrr_cents)),
        ConditionTarget::CustomerAgeDays => int_match(c, days_since(f.customer_created_at, now)),
        ConditionTarget::LifetimeSpend => int_match(c, Some(f.lifetime_spend_cents)),
        ConditionTarget::SuccessfulPayments => int_match(c, Some(f.successful_payments)),
        ConditionTarget::SubscriptionStatus => string_match(c, &f.subscription_status),
        ConditionTarget::BillingInterval => string_match(c, &f.billing_interval),
        ConditionTarget::CountryCode => string_match(c, &f.country_code),
        ConditionTarget::Currency => string_match(c, &f.currency),
        ConditionTarget::EmailDomain => string_match(c, &f.email_domain),
        ConditionTarget::SubscribedToProduct => stringlist_match(c, &f.product_ids),
        ConditionTarget::SubscribedToPrice => stringlist_match(c, &f.price_ids),
    }
}

fn evaluate_group(g: &ConditionGroup, f: &Facts, now: Timestamp) -> (r: bool)
    ensures
        r == group_holds(g@, f@, now),
{
    if g.conditions.len() == 0 {
        return false;
    }
    let mut k: usize = 0;
    while k < g.conditions.len()
        invariant
            g.conditions.len() > 0,
            k <= g.conditions.len(),
            forall|j: int| 0 <= j < k ==> condition_holds(#[trigger] g@[j], f@, now),
        decreases g.conditions.len() - k,
    {
        if !evaluate_single(&g.conditions[k], f, now) {
            assert(!condition_holds(g@[k as int], f@, now));
            return false;
        }
        k = k + 1;
    }
    true
}

/// Decides the rule at the given time.
pub fn evaluate_at(tree: &RuleTree, facts: &Facts, now: Timestamp) -> (r: bool)
    ensures
        r == rule_holds(tree@, facts@, now),
{
    if tree.grant_on_any_relation {
        return true;
    }
    let mut i: usize = 0;
    while i < tree.groups.len()
        invariant
            !tree.grant_on_any_relation,
            i <= tree.groups.len(),
            forall|j: int| 0 <= j < i ==> !group_holds(#[trigger] tree@.groups[j], facts@, now),
        decreases tree.groups.len() - i,
    {
        if evaluate_group(&tree.groups[i], facts, now) {
            assert(group_holds(tree@.groups[i as int], facts@, now));
            return true;
        }
        i = i + 1;
    }
    false
}

/// Decides the rule now.
///
///   * `grant_on_any_relation` admits every customer of the connected account.
///   * Otherwise a rule without groups admits nobody.
///   * Otherwise some group must hold, and a group holds when it has conditions
///     and all of them do.
pub fn evaluate(tree: &RuleTree, facts: &Facts) -> (r: bool)
    ensures
        exists|now: Timestamp|
            clock_showed(now) && clock_time(now) && r == #[trigger] rule_holds(
                tree@,
                facts@,
                now,
            ),
        !rule_reads_clock(tree@) ==> forall|now: Timestamp|
            r == #[trigger] rule_holds(tree@, facts@, now),
{
    let at = utc_now();
    let r = evaluate_at(tree, facts, at);
    proof {
        if !rule_reads_clock(tree@) {
            assert forall|now: Timestamp| r == #[trigger] rule_holds(tree@, facts@, now) by {
                rule_without_days_ignores_the_clock(tree@, facts@, at, now);
            }
        }
    }
    r
}

} // verus!
