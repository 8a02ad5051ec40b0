//! What a rule can be built of: the targets and the operators, as the rule
//! builder is told of them.
use vstd::prelude::*;
use crate::json::{
    add_text, entries_model, items_model, lemma_items_model_push, put, text_value, Json, JsonValue,
};
use crate::models::condition::{
    operator_key, operator_valid_for, target_key, target_kind, ConditionOperator, ConditionTarget,
    TargetKind,
};

verus! {

// ---------------------------------------------------------------------------
// Targets
// ---------------------------------------------------------------------------

/// The targets in the order in which they are offered.
pub open spec fn all_targets() -> Seq<ConditionTarget> {
    seq![
        ConditionTarget::HasActiveSubscription,
        ConditionTarget::SubscriptionStatus,
        ConditionTarget::IsTrialing,
        ConditionTarget::IsPastDue,
        ConditionTarget::CancelsAtPeriodEnd,
        ConditionTarget::ActiveSubscriptionCount,
        ConditionTarget::SubscribedToProduct,
        ConditionTarget::SubscribedToPrice,
        ConditionTarget::PlanAmount,
        ConditionTarget::BillingInterval,
        ConditionTarget::SubscriptionAgeDays,
        ConditionTarget::DaysUntilRenewal,
        ConditionTarget::TotalMrr,
        ConditionTarget::IsCustomer,
        ConditionTarget::CustomerAgeDays,
        ConditionTarget::IsDelinquent,
        ConditionTarget::LifetimeSpend,
        ConditionTarget::SuccessfulPayments,
        ConditionTarget::CountryCode,
        ConditionTarget::Currency,
        ConditionTarget::EmailDomain,
    ]
}

pub open spec fn kind_name(k: TargetKind) -> Seq<char> {
    match k {
        TargetKind::Bool => "bool"@,
        TargetKind::Int => "int"@,
        TargetKind::String => "string"@,
        TargetKind::StringList => "string_list"@,
    }
}

/// What a target is called.
pub open spec fn target_label(t: ConditionTarget) -> Seq<char> {
    match t {
        ConditionTarget::HasActiveSubscription => "Has an active subscription"@,
        ConditionTarget::SubscriptionStatus => "Subscription status"@,
        ConditionTarget::IsTrialing => "Is on a free trial"@,
        ConditionTarget::IsPastDue => "Subscription is past due"@,
        ConditionTarget::CancelsAtPeriodEnd => "Set to cancel at period end"@,
        ConditionTarget::ActiveSubscriptionCount => "Number of active subscriptions"@,
        ConditionTarget::SubscribedToProduct => "Subscribed to product"@,
        ConditionTarget::SubscribedToPrice => "Subscribed to price / plan"@,
        ConditionTarget::PlanAmount => "Plan price (per period)"@,
        ConditionTarget::BillingInterval => "Billing interval"@,
        ConditionTarget::SubscriptionAgeDays => "Days subscribed"@,
        ConditionTarget::DaysUntilRenewal => "Days until renewal"@,
        ConditionTarget::TotalMrr => "Monthly recurring value (MRR)"@,
        ConditionTarget::IsCustomer => "Is a customer"@,
        ConditionTarget::CustomerAgeDays => "Customer age (days)"@,
        ConditionTarget::IsDelinquent => "Has an overdue balance"@,
        ConditionTarget::LifetimeSpend => "Lifetime spend"@,
        ConditionTarget::SuccessfulPayments => "Successful payments"@,
        ConditionTarget::CountryCode => "Country code"@,
        ConditionTarget::Currency => "Currency"@,
        ConditionTarget::EmailDomain => "Email domain"@,
    }
}

/// Whether a target speaks of the subscriptions or of the customer.
pub open spec fn target_group(t: ConditionTarget) -> Seq<char> {
    match t {
        ConditionTarget::IsCustomer
        | ConditionTarget::CustomerAgeDays
        | ConditionTarget::IsDelinquent
        | ConditionTarget::LifetimeSpend
        | ConditionTarget::SuccessfulPayments
        | ConditionTarget::CountryCode
        | ConditionTarget::Currency
        | ConditionTarget::EmailDomain => "customer"@,
        _ => "subscription"@,
    }
}

/// What a target means.
pub open spec fn target_help(t: ConditionTarget) -> Seq<char> {
    match t {
        ConditionTarget::HasActiveSubscription => "True if they have any active or trialing subscription."@,
        ConditionTarget::SubscriptionStatus => "The most favorable status across their subscriptions."@,
        ConditionTarget::IsTrialing => "True while any subscription is in its trial period."@,
        ConditionTarget::IsPastDue => "A payment failed and the subscription is past due."@,
        ConditionTarget::CancelsAtPeriodEnd => "They cancelled but still have paid access until the period ends."@,
        ConditionTarget::ActiveSubscriptionCount => "How many active/trialing subscriptions they hold."@,
        ConditionTarget::SubscribedToProduct => "Active subscription to a specific product (pick by name)."@,
        ConditionTarget::SubscribedToPrice => "Active subscription to a specific price (pick by name)."@,
        ConditionTarget::PlanAmount => "Per-period charge of their highest active plan."@,
        ConditionTarget::BillingInterval => "Billing interval of their primary active plan."@,
        ConditionTarget::SubscriptionAgeDays => "Days since their current subscription started."@,
        ConditionTarget::DaysUntilRenewal => "Days until the next renewal of their active plan."@,
        ConditionTarget::TotalMrr => "Normalized monthly value of all active subscriptions."@,
        ConditionTarget::IsCustomer => "True if they have any Stripe customer record."@,
        ConditionTarget::CustomerAgeDays => "Days since they first became a customer."@,
        ConditionTarget::IsDelinquent => "Stripe marks the customer as delinquent (unpaid)."@,
        ConditionTarget::LifetimeSpend => "Total of their successful payments."@,
        ConditionTarget::SuccessfulPayments => "Count of their successful charges."@,
        ConditionTarget::CountryCode => "Customer billing country, e.g. US."@,
        ConditionTarget::Currency => "Customer currency, e.g. usd."@,
        ConditionTarget::EmailDomain => "Domain of the customer email, e.g. acme.com."@,
    }
}

/// The list from which a target's values are picked.
pub open spec fn target_picker(t: ConditionTarget) -> Option<Seq<char>> {
    match t {
        ConditionTarget::SubscribedToProduct => Some("product"@),
        ConditionTarget::SubscribedToPrice => Some("price"@),
        _ => None,
    }
}

pub open spec fn status_choices() -> Seq<Json> {
    seq![
        Json::Str("active"@),
        Json::Str("trialing"@),
        Json::Str("past_due"@),
        Json::Str("canceled"@),
        Json::Str("unpaid"@),
        Json::Str("incomplete"@),
        Json::Str("incomplete_expired"@),
        Json::Str("paused"@),
    ]
}

pub open spec fn interval_choices() -> Seq<Json> {
    seq![
        Json::Str("day"@),
        Json::Str("week"@),
        Json::Str("month"@),
        Json::Str("year"@),
    ]
}

/// The values that a target can have, where they are few.
pub open spec fn target_choices(t: ConditionTarget) -> Option<Seq<Json>> {
    match t {
        ConditionTarget::SubscriptionStatus => Some(status_choices()),
        ConditionTarget::BillingInterval => Some(interval_choices()),
        _ => None,
    }
}

pub open spec fn money_target(t: ConditionTarget) -> bool {
    t is PlanAmount || t is LifetimeSpend || t is TotalMrr
}

/// The members of a target's entry: the picker and the choices only where there
/// are some.
pub open spec fn target_members(t: ConditionTarget) -> Seq<(Seq<char>, Json)> {
    let base = seq![
        ("key"@, Json::Str(target_key(t))),
        ("label"@, Json::Str(target_label(t))),
        ("kind"@, Json::Str(kind_name(target_kind(t)))),
        ("group"@, Json::Str(target_group(t))),
        ("is_money"@, Json::Bool(money_target(t))),
    ];
    let picked = match target_picker(t) {
        Some(p) => base.push(("picker"@, Json::Str(p))),
        None => base,
    };
    let chosen = match target_choices(t) {
        Some(c) => picked.push(("choices"@, Json::Array(c))),
        None => picked,
    };
    chosen.push(("help"@, Json::Str(target_help(t))))
}

/// The entry of a target.
pub open spec fn target_entry(t: ConditionTarget) -> Json {
    Json::Object(target_members(t))
}

/// The entries of all targets.
pub open spec fn targets_json() -> Json {
    Json::Array(all_targets().map_values(|t: ConditionTarget| target_entry(t)))
}

pub fn kind_str(k: TargetKind) -> (r: &'static str)
    ensures
        r@ == kind_name(k),
{
    match k {
        TargetKind::Bool => "bool",
        TargetKind::Int => "int",
        TargetKind::String => "string",
        TargetKind::StringList => "string_list",
    }
}

fn label_of(t: ConditionTarget) -> (r: &'static str)
    ensures
        r@ == target_label(t),
{
    match t {
        ConditionTarget::HasActiveSubscription => "Has an active subscription",
        ConditionTarget::SubscriptionStatus => "Subscription status",
        ConditionTarget::IsTrialing => "Is on a free trial",
        ConditionTarget::IsPastDue => "Subscription is past due",
        ConditionTarget::CancelsAtPeriodEnd => "Set to cancel at period end",
        ConditionTarget::ActiveSubscriptionCount => "Number of active subscriptions",
        ConditionTarget::SubscribedToProduct => "Subscribed to product",
        ConditionTarget::SubscribedToPrice => "Subscribed to price / plan",
        ConditionTarget::PlanAmount => "Plan price (per period)",
        ConditionTarget::BillingInterval => "Billing interval",
        ConditionTarget::SubscriptionAgeDays => "Days subscribed",
        ConditionTarget::DaysUntilRenewal => "Days until renewal",
        ConditionTarget::TotalMrr => "Monthly recurring value (MRR)",
        ConditionTarget::IsCustomer => "Is a customer",
        ConditionTarget::CustomerAgeDays => "Customer age (days)",
        ConditionTarget::IsDelinquent => "Has an overdue balance",
        ConditionTarget::LifetimeSpend => "Lifetime spend",
        ConditionTarget::SuccessfulPayments => "Successful payments",
        ConditionTarget::CountryCode => "Country code",
        ConditionTarget::Currency => "Currency",
        ConditionTarget::EmailDomain => "Email domain",
    }
}

fn group_of(t: ConditionTarget) -> (r: &'static str)
    ensures
        r@ == target_group(t),
{
    match t {
        ConditionTarget::IsCustomer
        | ConditionTarget::CustomerAgeDays
        | ConditionTarget::IsDelinquent
        | ConditionTarget::LifetimeSpend
        | ConditionTarget::SuccessfulPayments
        | ConditionTarget::CountryCode
        | ConditionTarget::Currency
        | ConditionTarget::EmailDomain => "customer",
        _ => "subscription",
    }
}

fn help_of(t: ConditionTarget) -> (r: &'static str)
    ensures
        r@ == target_help(t),
{
    match t {
        ConditionTarget::HasActiveSubscription => "True if they have any active or trialing subscription.",
        ConditionTarget::SubscriptionStatus => "The most favorable status across their subscriptions.",
        ConditionTarget::IsTrialing => "True while any subscription is in its trial period.",
        ConditionTarget::IsPastDue => "A payment failed and the subscription is past due.",
        ConditionTarget::CancelsAtPeriodEnd => "They cancelled but still have paid access until the period ends.",
        ConditionTarget::ActiveSubscriptionCount => "How many active/trialing subscriptions they hold.",
        ConditionTarget::SubscribedToProduct => "Active subscription to a specific product (pick by name).",
        ConditionTarget::SubscribedToPrice => "Active subscription to a specific price (pick by name).",
        ConditionTarget::PlanAmount => "Per-period charge of their highest active plan.",
        ConditionTarget::BillingInterval => "Billing interval of their primary active plan.",
        ConditionTarget::SubscriptionAgeDays => "Days since their current subscription started.",
        ConditionTarget::DaysUntilRenewal => "Days until the next renewal of their active plan.",
        ConditionTarget::TotalMrr => "Normalized monthly value of all active subscriptions.",
        ConditionTarget::IsCustomer => "True if they have any Stripe customer record.",
        ConditionTarget::CustomerAgeDays => "Days since they first became a customer.",
        ConditionTarget::IsDelinquent => "Stripe marks the customer as delinquent (unpaid).",
        ConditionTarget::LifetimeSpend => "Total of their successful payments.",
        ConditionTarget::SuccessfulPayments => "Count of their successful charges.",
        ConditionTarget::CountryCode => "Customer billing country, e.g. US.",
        ConditionTarget::Currency => "Customer currency, e.g. usd.",
        ConditionTarget::EmailDomain => "Domain of the customer email, e.g. acme.com.",
    }
}

fn status_list() -> (r: JsonValue)
    ensures
        r@ == Json::Array(status_choices()),
{
    let mut items: Vec<JsonValue> = Vec::new();
    proof {
        assert(items_model(items@) =~= Seq::empty());
    }
    add_text(&mut items, "active");
    add_text(&mut items, "trialing");
    add_text(&mut items, "past_due");
    add_text(&mut items, "canceled");
    add_text(&mut items, "unpaid");
    add_text(&mut items, "incomplete");
    add_text(&mut items, "incomplete_expired");
    add_text(&mut items, "paused");
    proof {
        assert(items_model(items@) =~= status_choices());
    }
    JsonValue::Array(items)
}

fn interval_list() -> (r: JsonValue)
    ensures
        r@ == Json::Array(interval_choices()),
{
    let mut items: Vec<JsonValue> = Vec::new();
    proof {
        assert(items_model(items@) =~= Seq::empty());
    }
    add_text(&mut items, "day");
    add_text(&mut items, "week");
    add_text(&mut items, "month");
    add_text(&mut items, "year");
    proof {
        assert(items_model(items@) =~= interval_choices());
    }
    JsonValue::Array(items)
}

/// Writes the entry of a target.
pub fn target_entry_json(t: ConditionTarget) -> (r: JsonValue)
    ensures
        r@ == target_entry(t),
{
    let mut entries: Vec<(String, JsonValue)> = Vec::new();
    proof {
        assert(entries_model(entries@) =~= Seq::empty());
    }
    put(&mut entries, "key", text_value(t.as_str()));
    put(&mut entries, "label", text_value(label_of(t)));
    put(&mut entries, "kind", text_value(kind_str(t.kind())));
    put(&mut entries, "group", text_value(group_of(t)));
    put(&mut entries, "is_money", JsonValue::Bool(t.is_money()));
    proof {
        assert(entries_model(entries@) =~= seq![
            ("key"@, Json::Str(target_key(t))),
            ("label"@, Json::Str(target_label(t))),
            ("kind"@, Json::Str(kind_name(target_kind(t)))),
            ("group"@, Json::Str(target_group(t))),
            ("is_money"@, Json::Bool(money_target(t))),
        ]);
    }
    match t {
        ConditionTarget::SubscribedToProduct => put(&mut entries, "picker", text_value("product")),
        ConditionTarget::SubscribedToPrice => put(&mut entries, "picker", text_value("price")),
        _ => {},
    }
    match t {
        ConditionTarget::SubscriptionStatus => put(&mut entries, "choices", status_list()),
        ConditionTarget::BillingInterval => put(&mut entries, "choices", interval_list()),
        _ => {},
    }
    put(&mut entries, "help", text_value(help_of(t)));
    JsonValue::Object(entries)
}

fn add_target(items: &mut Vec<JsonValue>, t: ConditionTarget)
    ensures
        items_model(final(items)@) == items_model(old(items)@).push(target_entry(t)),
{
    let v = target_entry_json(t);
    proof {
        lemma_items_model_push(items@, v);
    }
    items.push(v);
}

/// Writes the entries of all targets.
pub fn target_catalog() -> (r: JsonValue)
    ensures
        r@ == targets_json(),
{
    let mut items: Vec<JsonValue> = Vec::new();
    proof {
        assert(items_model(items@) =~= Seq::empty());
    }
    add_target(&mut items, ConditionTarget::HasActiveSubscription);
    add_target(&mut items, ConditionTarget::SubscriptionStatus);
    add_target(&mut items, ConditionTarget::IsTrialing);
    add_target(&mut items, ConditionTarget::IsPastDue);
    add_target(&mut items, ConditionTarget::CancelsAtPeriodEnd);
    add_target(&mut items, ConditionTarget::ActiveSubscriptionCount);
    add_target(&mut items, ConditionTarget::SubscribedToProduct);
    add_target(&mut items, ConditionTarget::SubscribedToPrice);
    add_target(&mut items, ConditionTarget::PlanAmount);
    add_target(&mut items, ConditionTarget::BillingInterval);
    add_target(&mut items, ConditionTarget::SubscriptionAgeDays);
    add_target(&mut items, ConditionTarget::DaysUntilRenewal);
    add_target(&mut items, ConditionTarget::TotalMrr);
    add_target(&mut items, ConditionTarget::IsCustomer);
    add_target(&mut items, ConditionTarget::CustomerAgeDays);
    add_target(&mut items, ConditionTarget::IsDelinquent);
    add_target(&mut items, ConditionTarget::LifetimeSpend);
    add_target(&mut items, ConditionTarget::SuccessfulPayments);
    add_target(&mut items, ConditionTarget::CountryCode);
    add_target(&mut items, ConditionTarget::Currency);
    add_target(&mut items, ConditionTarget::EmailDomain);
    proof {
        assert(items_model(items@) =~= all_targets().map_values(
            |t: ConditionTarget| target_entry(t),
        ));
    }
    JsonValue::Array(items)
}

/// Every target is offered.
pub proof fn every_target_is_offered(t: ConditionTarget)
    ensures
        all_targets().contains(t),
{
    let all = all_targets();
    match t {
        ConditionTarget::HasActiveSubscription => assert(all[0] == t),
        ConditionTarget::SubscriptionStatus => assert(all[1] == t),
        ConditionTarget::IsTrialing => assert(all[2] == t),
        ConditionTarget::IsPastDue => assert(all[3] == t),
        ConditionTarget::CancelsAtPeriodEnd => assert(all[4] == t),
        ConditionTarget::ActiveSubscriptionCount => assert(all[5] == t),
        ConditionTarget::SubscribedToProduct => assert(all[6] == t),
        ConditionTarget::SubscribedToPrice => assert(all[7] == t),
        ConditionTarget::PlanAmount => assert(all[8] == t),
        ConditionTarget::BillingInterval => assert(all[9] == t),
        ConditionTarget::SubscriptionAgeDays => assert(all[10] == t),
        ConditionTarget::DaysUntilRenewal => assert(all[11] == t),
        ConditionTarget::TotalMrr => assert(all[12] == t),
        ConditionTarget::IsCustomer => assert(all[13] == t),
        ConditionTarget::CustomerAgeDays => assert(all[14] == t),
        ConditionTarget::IsDelinquent => assert(all[15] == t),
        ConditionTarget::LifetimeSpend => assert(all[16] == t),
        ConditionTarget::SuccessfulPayments => assert(all[17] == t),
        ConditionTarget::CountryCode => assert(all[18] == t),
        ConditionTarget::Currency => assert(all[19] == t),
        ConditionTarget::EmailDomain => assert(all[20] == t),
    }
}

/// No target is offered twice.
pub proof fn targets_are_offered_once()
    ensures
        all_targets().no_duplicates(),
{
}

// ---------------------------------------------------------------------------
// Operators
// ---------------------------------------------------------------------------

/// The operators in the order in which they are offered.
pub open spec fn all_operators() -> Seq<ConditionOperator> {
    seq![
        ConditionOperator::Eq,
        ConditionOperator::Neq,
        ConditionOperator::Gt,
        ConditionOperator::Gte,
        ConditionOperator::Lt,
        ConditionOperator::Lte,
        ConditionOperator::Between,
        ConditionOperator::Contains,
        ConditionOperator::Regex,
        ConditionOperator::In,
        ConditionOperator::NotIn,
    ]
}

/// What an operator is called.
pub open spec fn operator_label(op: ConditionOperator) -> Seq<char> {
    match op {
        ConditionOperator::Eq => "equals"@,
        ConditionOperator::Neq => "not equals"@,
        ConditionOperator::Gt => "greater than"@,
        ConditionOperator::Gte => "at least"@,
        ConditionOperator::Lt => "less than"@,
        ConditionOperator::Lte => "at most"@,
        ConditionOperator::Between => "between"@,
        ConditionOperator::Contains => "contains"@,
        ConditionOperator::Regex => "matches regex"@,
        ConditionOperator::In => "is one of"@,
        ConditionOperator::NotIn => "is not one of"@,
    }
}

/// The entry of an operator: its key and label, the kinds of data that it is
/// valid for, and whether it takes an upper bound or a list.
pub open spec fn operator_entry(op: ConditionOperator) -> Json {
    Json::Object(
        seq![
            ("key"@, Json::Str(operator_key(op))),
            ("label"@, Json::Str(operator_label(op))),
            (
                "valid_for"@,
                Json::Object(
                    seq![
                        ("bool"@, Json::Bool(operator_valid_for(op, TargetKind::Bool))),
                        ("int"@, Json::Bool(operator_valid_for(op, TargetKind::Int))),
                        ("string"@, Json::Bool(operator_valid_for(op, TargetKind::String))),
                        (
                            "string_list"@,
                            Json::Bool(operator_valid_for(op, TargetKind::StringList)),
                        ),
                    ],
                ),
            ),
            ("needs_value_end"@, Json::Bool(op is Between)),
            ("value_is_list"@, Json::Bool(op is In || op is NotIn)),
        ],
    )
}

/// The entries of all operators.
pub open spec fn operators_json() -> Json {
    Json::Array(all_operators().map_values(|op: ConditionOperator| operator_entry(op)))
}

fn operator_name(op: ConditionOperator) -> (r: &'static str)
    ensures
        r@ == operator_label(op),
{
    match op {
        ConditionOperator::Eq => "equals",
        ConditionOperator::Neq => "not equals",
        ConditionOperator::Gt => "greater than",
        ConditionOperator::Gte => "at least",
        ConditionOperator::Lt => "less than",
        ConditionOperator::Lte => "at most",
        ConditionOperator::Between => "between",
        ConditionOperator::Contains => "contains",
        ConditionOperator::Regex => "matches regex",
        ConditionOperator::In => "is one of",
        ConditionOperator::NotIn => "is not one of",
    }
}

/// Writes the entry of an operator.
pub fn operator_entry_json(op: ConditionOperator) -> (r: JsonValue)
    ensures
        r@ == operator_entry(op),
{
    let mut valid: Vec<(String, JsonValue)> = Vec::new();
    let mut entries: Vec<(String, JsonValue)> = Vec::new();
    proof {
        assert(entries_model(valid@) =~= Seq::empty());
        assert(entries_model(entries@) =~= Seq::empty());
    }
    put(&mut valid, "bool", JsonValue::Bool(op.valid_for(TargetKind::Bool)));
    put(&mut valid, "int", JsonValue::Bool(op.valid_for(TargetKind::Int)));
    put(&mut valid, "string", JsonValue::Bool(op.valid_for(TargetKind::String)));
    put(&mut valid, "string_list", JsonValue::Bool(op.valid_for(TargetKind::StringList)));
    proof {
        assert(entries_model(valid@) =~= seq![
            ("bool"@, Json::Bool(operator_valid_for(op, TargetKind::Bool))),
            ("int"@, Json::Bool(operator_valid_for(op, TargetKind::Int))),
            ("string"@, Json::Bool(operator_valid_for(op, TargetKind::String))),
            ("string_list"@, Json::Bool(operator_valid_for(op, TargetKind::StringList))),
        ]);
    }
    let needs_end = match op {
        ConditionOperator::Between => true,
        _ => false,
    };
    let is_list = match op {
        ConditionOperator::In | ConditionOperator::NotIn => true,
        _ => false,
    };
    put(&mut entries, "key", text_value(op.as_str()));
    put(&mut entries, "label", text_value(operator_name(op)));
    put(&mut entries, "valid_for", JsonValue::Object(valid));
    put(&mut entries, "needs_value_end", JsonValue::Bool(needs_end));
    put(&mut entries, "value_is_list", JsonValue::Bool(is_list));
    proof {
        assert(entries_model(entries@) =~= operator_entry(op)->Object_0);
    }
    JsonValue::Object(entries)
}

fn add_operator(items: &mut Vec<JsonValue>, op: ConditionOperator)
    ensures
        items_model(final(items)@) == items_model(old(items)@).push(operator_entry(op)),
{
    let v = operator_entry_json(op);
    proof {
        lemma_items_model_push(items@, v);
    }
    items.push(v);
}

/// Writes the entries of all operators.
pub fn operator_catalog() -> (r: JsonValue)
    ensures
        r@ == operators_json(),
{
    let mut items: Vec<JsonValue> = Vec::new();
    proof {
        assert(items_model(items@) =~= Seq::empty());
    }
    add_operator(&mut items, ConditionOperator::Eq);
    add_operator(&mut items, ConditionOperator::Neq);
    add_operator(&mut items, ConditionOperator::Gt);
    add_operator(&mut items, ConditionOperator::Gte);
    add_operator(&mut items, ConditionOperator::Lt);
    add_operator(&mut items, ConditionOperator::Lte);
    add_operator(&mut items, ConditionOperator::Between);
    add_operator(&mut items, ConditionOperator::Contains);
    add_operator(&mut items, ConditionOperator::Regex);
    add_operator(&mut items, ConditionOperator::In);
    add_operator(&mut items, ConditionOperator::NotIn);
    proof {
        assert(items_model(items@) =~= all_operators().map_values(
            |op: ConditionOperator| operator_entry(op),
        ));
    }
    JsonValue::Array(items)
}

/// Every operator is offered.
pub proof fn every_operator_is_offered(op: ConditionOperator)
    ensures
        all_operators().contains(op),
{
    let all = all_operators();
    match op {
        ConditionOperator::Eq => assert(all[0] == op),
        ConditionOperator::Neq => assert(all[1] == op),
        ConditionOperator::Gt => assert(all[2] == op),
        ConditionOperator::Gte => assert(all[3] == op),
        ConditionOperator::Lt => assert(all[4] == op),
        ConditionOperator::Lte => assert(all[5] == op),
        ConditionOperator::Between => assert(all[6] == op),
        ConditionOperator::Contains => assert(all[7] == op),
        ConditionOperator::Regex => assert(all[8] == op),
        ConditionOperator::In => assert(all[9] == op),
        ConditionOperator::NotIn => assert(all[10] == op),
    }
}

/// No operator is offered twice.
pub proof fn operators_are_offered_once()
    ensures
        all_operators().no_duplicates(),
{
}

} // verus!
