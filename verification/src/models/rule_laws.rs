//! What a stored rule says.
//!
//! Each law speaks of what a function was given and of what it gave.
use vstd::prelude::*;
use crate::json::{json_get, Json, JsonValue};
use crate::models::condition::{
    operator_key, operator_keys_are_distinct, target_key, target_keys_are_distinct,
    ConditionModel, ConditionOperator, ConditionTarget, TargetKind,
};
use crate::models::rule::RuleTree;
use crate::models::rule_json::{
    condition_of, conditions_of, group_of, groups_of, operator_named, rule_tree_from_json,
    stored_rule_tree, target_named,
};

verus! {

// ---------------------------------------------------------------------------
// Names
// ---------------------------------------------------------------------------

/// The name of a target.
pub open spec fn target_name(t: ConditionTarget) -> Seq<char> {
    match t {
        ConditionTarget::IsTrialing => "is_trialing"@,
        ConditionTarget::IsPastDue => "is_past_due"@,
        ConditionTarget::IsCustomer => "is_customer"@,
        ConditionTarget::IsDelinquent => "is_delinquent"@,
        ConditionTarget::HasActiveSubscription => "has_active_subscription"@,
        ConditionTarget::CancelsAtPeriodEnd => "cancels_at_period_end"@,
        ConditionTarget::SubscriptionStatus => "subscription_status"@,
        ConditionTarget::BillingInterval => "billing_interval"@,
        ConditionTarget::CountryCode => "country_code"@,
        ConditionTarget::Currency => "currency"@,
        ConditionTarget::EmailDomain => "email_domain"@,
        ConditionTarget::SubscribedToProduct => "subscribed_to_product"@,
        ConditionTarget::SubscribedToPrice => "subscribed_to_price"@,
        ConditionTarget::ActiveSubscriptionCount => "active_subscription_count"@,
        ConditionTarget::PlanAmount => "plan_amount"@,
        ConditionTarget::TotalMrr => "total_mrr"@,
        ConditionTarget::LifetimeSpend => "lifetime_spend"@,
        ConditionTarget::SuccessfulPayments => "successful_payments"@,
        ConditionTarget::SubscriptionAgeDays => "subscription_age_days"@,
        ConditionTarget::DaysUntilRenewal => "days_until_renewal"@,
        ConditionTarget::CustomerAgeDays => "customer_age_days"@,
    }
}

/// The name of an operator.
pub open spec fn operator_name(op: ConditionOperator) -> Seq<char> {
    match op {
        ConditionOperator::Eq => "eq"@,
        ConditionOperator::Neq => "neq"@,
        ConditionOperator::Lt => "lt"@,
        ConditionOperator::Lte => "lte"@,
        ConditionOperator::Gt => "gt"@,
        ConditionOperator::Gte => "gte"@,
        ConditionOperator::In => "in"@,
        ConditionOperator::NotIn => "not_in"@,
        ConditionOperator::Between => "between"@,
        ConditionOperator::Contains => "contains"@,
        ConditionOperator::Regex => "regex"@,
    }
}

/// A target is written by its name, and read by it: a name gives the target that
/// has it, and a text that is no name gives none.
pub proof fn targets_go_by_their_names(
    t: ConditionTarget,
    written: &'static str,
    given: &str,
    r: Option<ConditionTarget>,
)
    requires
        call_ensures(ConditionTarget::as_str, (t,), written),
        call_ensures(ConditionTarget::from_key, (given,), r),
    ensures
        written@ == target_name(t),
        given@ == target_name(t) ==> r == Some(t),
        r matches Some(u) ==> given@ == target_name(u),
{
    assert(target_key(t) == target_name(t));
    match r {
        Some(u) => {
            assert(target_key(u) == target_name(u));
            if given@ == target_name(t) && u != t {
                target_keys_are_distinct(u, t);
            }
        },
        None => {},
    }
}

/// An operator is written by its name, and read by it.
pub proof fn operators_go_by_their_names(
    op: ConditionOperator,
    written: &'static str,
    given: &str,
    r: Option<ConditionOperator>,
)
    requires
        call_ensures(ConditionOperator::as_str, (op,), written),
        call_ensures(ConditionOperator::from_key, (given,), r),
    ensures
        written@ == operator_name(op),
        given@ == operator_name(op) ==> r == Some(op),
        r matches Some(u) ==> given@ == operator_name(u),
{
    assert(operator_key(op) == operator_name(op));
    match r {
        Some(u) => {
            assert(operator_key(u) == operator_name(u));
            if given@ == operator_name(op) && u != op {
                operator_keys_are_distinct(u, op);
            }
        },
        None => {},
    }
}

/// What a target is about decides its kind: what is or is not is a flag, what is
/// counted is a number, what is called something is a text, and what can be many
/// is a list.
pub proof fn targets_have_their_kinds(t: ConditionTarget, kind: TargetKind, money: bool)
    requires
        call_ensures(ConditionTarget::kind, (t,), kind),
        call_ensures(ConditionTarget::is_money, (t,), money),
    ensures
        kind is Bool <==> t is IsTrialing || t is IsPastDue || t is IsCustomer || t is IsDelinquent
            || t is HasActiveSubscription || t is CancelsAtPeriodEnd,
        kind is String <==> t is SubscriptionStatus || t is BillingInterval || t is CountryCode || t
            is Currency || t is EmailDomain,
        kind is StringList <==> t is SubscribedToProduct || t is SubscribedToPrice,
        money ==> kind is Int,
        money <==> t is PlanAmount || t is TotalMrr || t is LifetimeSpend,
{
}

/// Everything can be compared for equality, and a flag not otherwise. Only
/// numbers have an order, only texts have parts and patterns, and only texts and
/// lists can be in a list.
pub proof fn operators_fit_kinds(op: ConditionOperator, kind: TargetKind, r: bool)
    requires
        call_ensures(ConditionOperator::valid_for, (op, kind), r),
    ensures
        op is Eq ==> r,
        kind is Bool && !(op is Eq) ==> !r,
        op is Gt || op is Gte || op is Lt || op is Lte || op is Between ==> (r <==> kind is Int),
        op is Contains || op is Regex ==> (r <==> kind is String),
        op is In || op is NotIn ==> (r <==> kind is String || kind is StringList),
        op is Neq ==> (r <==> kind is Int || kind is String),
{
}

// ---------------------------------------------------------------------------
// Documents
// ---------------------------------------------------------------------------

/// The document has this under the name.
pub open spec fn holds(j: Json, name: Seq<char>, v: Json) -> bool {
    json_get(j, name) == Some(v)
}

/// The object says what the condition says.
pub open spec fn says_condition(j: Json, c: ConditionModel) -> bool {
    &&& forall|name: Seq<char>| #[trigger]
        holds(j, "target"@, Json::Str(name)) ==> name == target_name(c.target)
    &&& forall|name: Seq<char>| #[trigger]
        holds(j, "operator"@, Json::Str(name)) ==> name == operator_name(c.operator)
    &&& holds(j, "value"@, c.value)
    &&& forall|end: Json| #[trigger]
        holds(j, "value_end"@, end) && !(end is Null) ==> c.value_end == Some(end)
    &&& json_get(j, "value_end"@) is None ==> c.value_end is None
}

proof fn lemma_says_condition(j: Json)
    requires
        j is Object,
        condition_of(j) is Some,
    ensures
        says_condition(j, condition_of(j)->0),
{
    let c = condition_of(j)->0;
    assert forall|name: Seq<char>| #[trigger]
        holds(j, "target"@, Json::Str(name)) implies name == target_name(c.target) by {
        assert(target_named(Some(name)) == Some(c.target));
        assert(target_key(c.target) == target_name(c.target));
    }
    assert forall|name: Seq<char>| #[trigger]
        holds(j, "operator"@, Json::Str(name)) implies name == operator_name(c.operator) by {
        assert(operator_named(Some(name)) == Some(c.operator));
        assert(operator_key(c.operator) == operator_name(c.operator));
    }
}

proof fn lemma_conditions(items: Seq<Json>, k: int)
    requires
        conditions_of(items) is Some,
        0 <= k < items.len(),
    ensures
        conditions_of(items)->0.len() == items.len(),
        condition_of(items[k]) == Some(conditions_of(items)->0[k]),
    decreases items.len(),
{
    let before = items.drop_last();
    if before.len() > 0 {
        lemma_conditions(before, if k < before.len() {
            k
        } else {
            0
        });
        if k < before.len() {
            assert(before[k] == items[k]);
        }
    } else {
        assert(conditions_of(before)->0.len() == 0);
    }
}

proof fn lemma_groups(items: Seq<Json>, i: int)
    requires
        groups_of(items) is Some,
        0 <= i < items.len(),
    ensures
        groups_of(items)->0.len() == items.len(),
        group_of(items[i]) == Some(groups_of(items)->0[i]),
    decreases items.len(),
{
    let before = items.drop_last();
    if before.len() > 0 {
        lemma_groups(before, if i < before.len() {
            i
        } else {
            0
        });
        if i < before.len() {
            assert(before[i] == items[i]);
        }
    } else {
        assert(groups_of(before)->0.len() == 0);
    }
}

/// A rule that is read grants on any relation where the document says so, and not
/// where it says nothing.
pub proof fn grant_is_read_as_it_is_written(v: JsonValue, tree: RuleTree, flag: bool)
    requires
        call_ensures(rule_tree_from_json, (&v,), Some(tree)),
        v@ is Object,
    ensures
        holds(v@, "grant_on_any_relation"@, Json::Bool(flag)) ==> tree.grant_on_any_relation
            == flag,
        json_get(v@, "grant_on_any_relation"@) is None ==> !tree.grant_on_any_relation,
        json_get(v@, "groups"@) is None ==> tree@.groups.len() == 0,
{
    assert(tree@.grant_on_any_relation == tree.grant_on_any_relation);
}

/// A rule that is read has a group for each of the document's, in order, and in
/// it a condition for each of the group's, in order, that says what the document
/// says.
pub proof fn conditions_are_read_as_they_are_written(
    v: JsonValue,
    tree: RuleTree,
    groups: Seq<Json>,
    i: int,
    conditions: Seq<Json>,
    k: int,
)
    requires
        call_ensures(rule_tree_from_json, (&v,), Some(tree)),
        v@ is Object,
        holds(v@, "groups"@, Json::Array(groups)),
        0 <= i < groups.len(),
        groups[i] is Object,
        holds(groups[i], "conditions"@, Json::Array(conditions)),
        0 <= k < conditions.len(),
        conditions[k] is Object,
    ensures
        tree@.groups.len() == groups.len(),
        tree@.groups[i].len() == conditions.len(),
        says_condition(conditions[k], tree@.groups[i][k]),
{
    lemma_groups(groups, i);
    lemma_conditions(conditions, k);
    lemma_says_condition(conditions[k]);
}

/// A document that is no rule stands for one that admits nobody.
pub proof fn unreadable_rule_admits_nobody(v: JsonValue, r: Option<RuleTree>, tree: RuleTree)
    requires
        call_ensures(rule_tree_from_json, (&v,), r),
        call_ensures(stored_rule_tree, (&v,), tree),
    ensures
        r is None ==> !tree.grant_on_any_relation && tree.groups@.len() == 0,
        r matches Some(t) ==> tree@ == t@,
{
    assert(tree@.grant_on_any_relation == tree.grant_on_any_relation);
    assert(tree@.groups.len() == tree.groups@.len());
}

} // verus!
