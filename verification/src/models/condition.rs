//! What a condition compares and how.
use vstd::prelude::*;
use crate::json::{Json, JsonValue};
use crate::text::str_eq;

verus! {

/// What kind of data a target produces. It decides which operators are valid.
///
/// The operators of a `StringList` target mean set membership:
///   * `Eq`: the set includes this one value
///   * `In`: the set overlaps any of the given values
///   * `NotIn`: the set overlaps none of the given values
#[derive(Debug, Clone, Copy, PartialEq, Eq, Structural)]
pub enum TargetKind {
    Bool,
    Int,
    String,
    StringList,
}

/// A fact about one member of one connected account.
#[derive(Debug, Clone, Copy, PartialEq, Eq, Structural)]
pub enum ConditionTarget {
    HasActiveSubscription,
    SubscriptionStatus,
    IsTrialing,
    IsPastDue,
    CancelsAtPeriodEnd,
    ActiveSubscriptionCount,
    SubscribedToProduct,
    SubscribedToPrice,
    PlanAmount,
    BillingInterval,
    SubscriptionAgeDays,
    DaysUntilRenewal,
    TotalMrr,
    IsCustomer,
    CustomerAgeDays,
    IsDelinquent,
    LifetimeSpend,
    SuccessfulPayments,
    CountryCode,
    Currency,
    EmailDomain,
}

/// The kind of data that a target produces.
pub open spec fn target_kind(t: ConditionTarget) -> TargetKind {
    match t {
        ConditionTarget::HasActiveSubscription
        | ConditionTarget::IsTrialing
        | ConditionTarget::IsPastDue
        | ConditionTarget::CancelsAtPeriodEnd
        | ConditionTarget::IsCustomer
        | ConditionTarget::IsDelinquent => TargetKind::Bool,
        ConditionTarget::ActiveSubscriptionCount
        | ConditionTarget::PlanAmount
        | ConditionTarget::SubscriptionAgeDays
        | ConditionTarget::DaysUntilRenewal
        | ConditionTarget::TotalMrr
        | ConditionTarget::CustomerAgeDays
        | ConditionTarget::LifetimeSpend
        | ConditionTarget::SuccessfulPayments => TargetKind::Int,
        ConditionTarget::SubscriptionStatus
        | ConditionTarget::BillingInterval
        | ConditionTarget::CountryCode
        | ConditionTarget::Currency
        | ConditionTarget::EmailDomain => TargetKind::String,
        ConditionTarget::SubscribedToProduct | ConditionTarget::SubscribedToPrice =>
            TargetKind::StringList,
    }
}

/// The key under which a target is stored.
pub open spec fn target_key(t: ConditionTarget) -> Seq<char> {
    match t {
        ConditionTarget::HasActiveSubscription => "has_active_subscription"@,
        ConditionTarget::SubscriptionStatus => "subscription_status"@,
        ConditionTarget::IsTrialing => "is_trialing"@,
        ConditionTarget::IsPastDue => "is_past_due"@,
        ConditionTarget::CancelsAtPeriodEnd => "cancels_at_period_end"@,
        ConditionTarget::ActiveSubscriptionCount => "active_subscription_count"@,
        ConditionTarget::SubscribedToProduct => "subscribed_to_product"@,
        ConditionTarget::SubscribedToPrice => "subscribed_to_price"@,
        ConditionTarget::PlanAmount => "plan_amount"@,
        ConditionTarget::BillingInterval => "billing_interval"@,
        ConditionTarget::SubscriptionAgeDays => "subscription_age_days"@,
        ConditionTarget::DaysUntilRenewal => "days_until_renewal"@,
        ConditionTarget::TotalMrr => "total_mrr"@,
        ConditionTarget::IsCustomer => "is_customer"@,
        ConditionTarget::CustomerAgeDays => "customer_age_days"@,
        ConditionTarget::IsDelinquent => "is_delinquent"@,
        ConditionTarget::LifetimeSpend => "lifetime_spend"@,
        ConditionTarget::SuccessfulPayments => "successful_payments"@,
        ConditionTarget::CountryCode => "country_code"@,
        ConditionTarget::Currency => "currency"@,
        ConditionTarget::EmailDomain => "email_domain"@,
    }
}

/// No target is stored under the key.
pub open spec fn is_no_target(key: Seq<char>) -> bool {
    forall|t: ConditionTarget| #[trigger] target_key(t) != key
}

impl ConditionTarget {
    /// The kind of data that the target produces.
    pub fn kind(self) -> (r: TargetKind)
        ensures
            r == target_kind(self),
    {
        match self {
            ConditionTarget::HasActiveSubscription
            | ConditionTarget::IsTrialing
            | ConditionTarget::IsPastDue
            | ConditionTarget::CancelsAtPeriodEnd
            | ConditionTarget::IsCustomer
            | ConditionTarget::IsDelinquent => TargetKind::Bool,
            ConditionTarget::ActiveSubscriptionCount
            | ConditionTarget::PlanAmount
            | ConditionTarget::SubscriptionAgeDays
            | ConditionTarget::DaysUntilRenewal
            | ConditionTarget::TotalMrr
            | ConditionTarget::CustomerAgeDays
            | ConditionTarget::LifetimeSpend
            | ConditionTarget::SuccessfulPayments => TargetKind::Int,
            ConditionTarget::SubscriptionStatus
            | ConditionTarget::BillingInterval
            | ConditionTarget::CountryCode
            | ConditionTarget::Currency
            | ConditionTarget::EmailDomain => TargetKind::String,
            ConditionTarget::SubscribedToProduct | ConditionTarget::SubscribedToPrice =>
                TargetKind::StringList,
        }
    }

    /// True when the number is an amount of money in the currency's smallest
    /// unit.
    pub fn is_money(self) -> (r: bool)
        ensures
            r <==> self == ConditionTarget::PlanAmount || self == ConditionTarget::LifetimeSpend
                || self == ConditionTarget::TotalMrr,
    {
        match self {
            ConditionTarget::PlanAmount
            | ConditionTarget::LifetimeSpend
            | ConditionTarget::TotalMrr => true,
            _ => false,
        }
    }

    /// The key under which the target is stored.
    pub fn as_str(self) -> (r: &'static str)
        ensures
            r@ == target_key(self),
    {
        match self {
            ConditionTarget::HasActiveSubscription => "has_active_subscription",
            ConditionTarget::SubscriptionStatus => "subscription_status",
            ConditionTarget::IsTrialing => "is_trialing",
            ConditionTarget::IsPastDue => "is_past_due",
            ConditionTarget::CancelsAtPeriodEnd => "cancels_at_period_end",
            ConditionTarget::ActiveSubscriptionCount => "active_subscription_count",
            ConditionTarget::SubscribedToProduct => "subscribed_to_product",
            ConditionTarget::SubscribedToPrice => "subscribed_to_price",
            ConditionTarget::PlanAmount => "plan_amount",
            ConditionTarget::BillingInterval => "billing_interval",
            ConditionTarget::SubscriptionAgeDays => "subscription_age_days",
            ConditionTarget::DaysUntilRenewal => "days_until_renewal",
            ConditionTarget::TotalMrr => "total_mrr",
            ConditionTarget::IsCustomer => "is_customer",
            ConditionTarget::CustomerAgeDays => "customer_age_days",
            ConditionTarget::IsDelinquent => "is_delinquent",
            ConditionTarget::LifetimeSpend => "lifetime_spend",
            ConditionTarget::SuccessfulPayments => "successful_payments",
            ConditionTarget::CountryCode => "country_code",
            ConditionTarget::Currency => "currency",
            ConditionTarget::EmailDomain => "email_domain",
        }
    }

    /// The target stored under the key; none for a key of no target.
    pub fn from_key(s: &str) -> (r: Option<Self>)
        ensures
            match r {
                Some(t) => target_key(t) == s@,
                None => is_no_target(s@),
            },
    {
        if str_eq(s, "has_active_subscription") {
            Some(ConditionTarget::HasActiveSubscription)
        } else if str_eq(s, "subscription_status") {
            Some(ConditionTarget::SubscriptionStatus)
        } else if str_eq(s, "is_trialing") {
            Some(ConditionTarget::IsTrialing)
        } else if str_eq(s, "is_past_due") {
            Some(ConditionTarget::IsPastDue)
        } else if str_eq(s, "cancels_at_period_end") {
            Some(ConditionTarget::CancelsAtPeriodEnd)
        } else if str_eq(s, "active_subscription_count") {
            Some(ConditionTarget::ActiveSubscriptionCount)
        } else if str_eq(s, "subscribed_to_product") {
            Some(ConditionTarget::SubscribedToProduct)
        } else if str_eq(s, "subscribed_to_price") {
            Some(ConditionTarget::SubscribedToPrice)
        } else if str_eq(s, "plan_amount") {
            Some(ConditionTarget::PlanAmount)
        } else if str_eq(s, "billing_interval") {
            Some(ConditionTarget::BillingInterval)
        } else if str_eq(s, "subscription_age_days") {
            Some(ConditionTarget::SubscriptionAgeDays)
        } else if str_eq(s, "days_until_renewal") {
            Some(ConditionTarget::DaysUntilRenewal)
        } else if str_eq(s, "total_mrr") {
            Some(ConditionTarget::TotalMrr)
        } else if str_eq(s, "is_customer") {
            Some(ConditionTarget::IsCustomer)
        } else if str_eq(s, "customer_age_days") {
            Some(ConditionTarget::CustomerAgeDays)
        } else if str_eq(s, "is_delinquent") {
            Some(ConditionTarget::IsDelinquent)
        } else if str_eq(s, "lifetime_spend") {
            Some(ConditionTarget::LifetimeSpend)
        } else if str_eq(s, "successful_payments") {
            Some(ConditionTarget::SuccessfulPayments)
        } else if str_eq(s, "country_code") {
            Some(ConditionTarget::CountryCode)
        } else if str_eq(s, "currency") {
            Some(ConditionTarget::Currency)
        } else if str_eq(s, "email_domain") {
            Some(ConditionTarget::EmailDomain)
        } else {
            None
        }
    }
}

/// How a condition compares.
#[derive(Debug, Clone, Copy, PartialEq, Eq, Structural)]
pub enum ConditionOperator {
    Eq,
    Neq,
    Gt,
    Gte,
    Lt,
    Lte,
    Between,
    Contains,
    Regex,
    In,
    NotIn,
}

/// The key under which an operator is stored.
pub open spec fn operator_key(op: ConditionOperator) -> Seq<char> {
    match op {
        ConditionOperator::Eq => "eq"@,
        ConditionOperator::Neq => "neq"@,
        ConditionOperator::Gt => "gt"@,
        ConditionOperator::Gte => "gte"@,
        ConditionOperator::Lt => "lt"@,
        ConditionOperator::Lte => "lte"@,
        ConditionOperator::Between => "between"@,
        ConditionOperator::Contains => "contains"@,
        ConditionOperator::Regex => "regex"@,
        ConditionOperator::In => "in"@,
        ConditionOperator::NotIn => "not_in"@,
    }
}

/// The operators that mean something for each kind of data.
pub open spec fn operator_valid_for(op: ConditionOperator, kind: TargetKind) -> bool {
    match kind {
        TargetKind::Bool => op is Eq,
        TargetKind::Int => op is Eq || op is Neq || op is Gt || op is Gte || op is Lt || op is Lte
            || op is Between,
        TargetKind::String => op is Eq || op is Neq || op is Contains || op is Regex || op is In
            || op is NotIn,
        TargetKind::StringList => op is Eq || op is In || op is NotIn,
    }
}

/// No operator is stored under the key.
pub open spec fn is_no_operator(key: Seq<char>) -> bool {
    forall|op: ConditionOperator| #[trigger] operator_key(op) != key
}

impl ConditionOperator {
    /// The key under which the operator is stored.
    pub fn as_str(self) -> (r: &'static str)
        ensures
            r@ == operator_key(self),
    {
        match self {
            ConditionOperator::Eq => "eq",
            ConditionOperator::Neq => "neq",
            ConditionOperator::Gt => "gt",
            ConditionOperator::Gte => "gte",
            ConditionOperator::Lt => "lt",
            ConditionOperator::Lte => "lte",
            ConditionOperator::Between => "between",
            ConditionOperator::Contains => "contains",
            ConditionOperator::Regex => "regex",
            ConditionOperator::In => "in",
            ConditionOperator::NotIn => "not_in",
        }
    }

    /// The operator stored under the key; none for a key of no operator.
    pub fn from_key(s: &str) -> (r: Option<Self>)
        ensures
            match r {
                Some(op) => operator_key(op) == s@,
                None => is_no_operator(s@),
            },
    {
        if str_eq(s, "eq") {
            Some(ConditionOperator::Eq)
        } else if str_eq(s, "neq") {
            Some(ConditionOperator::Neq)
        } else if str_eq(s, "gt") {
            Some(ConditionOperator::Gt)
        } else if str_eq(s, "gte") {
            Some(ConditionOperator::Gte)
        } else if str_eq(s, "lt") {
            Some(ConditionOperator::Lt)
        } else if str_eq(s, "lte") {
            Some(ConditionOperator::Lte)
        } else if str_eq(s, "between") {
            Some(ConditionOperator::Between)
        } else if str_eq(s, "contains") {
            Some(ConditionOperator::Contains)
        } else if str_eq(s, "regex") {
            Some(ConditionOperator::Regex)
        } else if str_eq(s, "in") {
            Some(ConditionOperator::In)
        } else if str_eq(s, "not_in") {
            Some(ConditionOperator::NotIn)
        } else {
            None
        }
    }

    /// Whether the operator means something for the kind of data.
    pub fn valid_for(self, kind: TargetKind) -> (r: bool)
        ensures
            r == operator_valid_for(self, kind),
    {
        match kind {
            TargetKind::Bool => match self {
                ConditionOperator::Eq => true,
                _ => false,
            },
            TargetKind::Int => match self {
                ConditionOperator::Eq
                | ConditionOperator::Neq
                | ConditionOperator::Gt
                | ConditionOperator::Gte
                | ConditionOperator::Lt
                | ConditionOperator::Lte
                | ConditionOperator::Between => true,
                _ => false,
            },
            TargetKind::String => match self {
                ConditionOperator::Eq
                | ConditionOperator::Neq
                | ConditionOperator::Contains
                | ConditionOperator::Regex
                | ConditionOperator::In
                | ConditionOperator::NotIn => true,
                _ => false,
            },
            TargetKind::StringList => match self {
                ConditionOperator::Eq | ConditionOperator::In | ConditionOperator::NotIn => true,
                _ => false,
            },
        }
    }
}

/// No two targets are stored under one key, so a key read back gives the target
/// that was stored.
pub proof fn target_keys_are_distinct(a: ConditionTarget, b: ConditionTarget)
    requires
        target_key(a) == target_key(b),
    ensures
        a == b,
{
    reveal_strlit("has_active_subscription");
    assert("has_active_subscription"@.len() == 23);
    assert("has_active_subscription"@[0] == 'h');
    assert("has_active_subscription"@[7] == 'i');
    reveal_strlit("subscription_status");
    assert("subscription_status"@.len() == 19);
    assert("subscription_status"@[0] == 's');
    assert("subscription_status"@[7] == 'p');
    reveal_strlit("is_trialing");
    assert("is_trialing"@.len() == 11);
    assert("is_trialing"@[0] == 'i');
    assert("is_trialing"@[7] == 'l');
    reveal_strlit("is_past_due");
    assert("is_past_due"@.len() == 11);
    assert("is_past_due"@[0] == 'i');
    assert("is_past_due"@[7] == '_');
    reveal_strlit("cancels_at_period_end");
    assert("cancels_at_period_end"@.len() == 21);
    assert("cancels_at_period_end"@[0] == 'c');
    assert("cancels_at_period_end"@[7] == '_');
    reveal_strlit("active_subscription_count");
    assert("active_subscription_count"@.len() == 25);
    assert("active_subscription_count"@[0] == 'a');
    assert("active_subscription_count"@[7] == 's');
    reveal_strlit("subscribed_to_product");
    assert("subscribed_to_product"@.len() == 21);
    assert("subscribed_to_product"@[0] == 's');
    assert("subscribed_to_product"@[7] == 'b');
    reveal_strlit("subscribed_to_price");
    assert("subscribed_to_price"@.len() == 19);
    assert("subscribed_to_price"@[0] == 's');
    assert("subscribed_to_price"@[7] == 'b');
    reveal_strlit("plan_amount");
    assert("plan_amount"@.len() == 11);
    assert("plan_amount"@[0] == 'p');
    assert("plan_amount"@[7] == 'o');
    reveal_strlit("billing_interval");
    assert("billing_interval"@.len() == 16);
    assert("billing_interval"@[0] == 'b');
    assert("billing_interval"@[7] == '_');
    reveal_strlit("subscription_age_days");
    assert("subscription_age_days"@.len() == 21);
    assert("subscription_age_days"@[0] == 's');
    assert("subscription_age_days"@[7] == 'p');
    reveal_strlit("days_until_renewal");
    assert("days_until_renewal"@.len() == 18);
    assert("days_until_renewal"@[0] == 'd');
    assert("days_until_renewal"@[7] == 't');
    reveal_strlit("total_mrr");
    assert("total_mrr"@.len() == 9);
    assert("total_mrr"@[0] == 't');
    assert("total_mrr"@[7] == 'r');
    reveal_strlit("is_customer");
    assert("is_customer"@.len() == 11);
    assert("is_customer"@[0] == 'i');
    assert("is_customer"@[7] == 'o');
    reveal_strlit("customer_age_days");
    assert("customer_age_days"@.len() == 17);
    assert("customer_age_days"@[0] == 'c');
    assert("customer_age_days"@[7] == 'r');
    reveal_strlit("is_delinquent");
    assert("is_delinquent"@.len() == 13);
    assert("is_delinquent"@[0] == 'i');
    assert("is_delinquent"@[7] == 'n');
    reveal_strlit("lifetime_spend");
    assert("lifetime_spend"@.len() == 14);
    assert("lifetime_spend"@[0] == 'l');
    assert("lifetime_spend"@[7] == 'e');
    reveal_strlit("successful_payments");
    assert("successful_payments"@.len() == 19);
    assert("successful_payments"@[0] == 's');
    assert("successful_payments"@[7] == 'f');
    reveal_strlit("country_code");
    assert("country_code"@.len() == 12);
    assert("country_code"@[0] == 'c');
    assert("country_code"@[7] == '_');
    reveal_strlit("currency");
    assert("currency"@.len() == 8);
    assert("currency"@[0] == 'c');
    assert("currency"@[7] == 'y');
    reveal_strlit("email_domain");
    assert("email_domain"@.len() == 12);
    assert("email_domain"@[0] == 'e');
    assert("email_domain"@[7] == 'o');
    assert(target_key(a).len() == target_key(b).len());
    assert(target_key(a)[0] == target_key(b)[0]);
    assert(target_key(a)[7] == target_key(b)[7]);
}

/// No two operators are stored under one key, so a key read back gives the
/// operator that was stored.
pub proof fn operator_keys_are_distinct(a: ConditionOperator, b: ConditionOperator)
    requires
        operator_key(a) == operator_key(b),
    ensures
        a == b,
{
    reveal_strlit("eq");
    assert("eq"@.len() == 2);
    assert("eq"@[0] == 'e');
    reveal_strlit("neq");
    assert("neq"@.len() == 3);
    assert("neq"@[0] == 'n');
    reveal_strlit("gt");
    assert("gt"@.len() == 2);
    assert("gt"@[0] == 'g');
    reveal_strlit("gte");
    assert("gte"@.len() == 3);
    assert("gte"@[0] == 'g');
    reveal_strlit("lt");
    assert("lt"@.len() == 2);
    assert("lt"@[0] == 'l');
    reveal_strlit("lte");
    assert("lte"@.len() == 3);
    assert("lte"@[0] == 'l');
    reveal_strlit("between");
    assert("between"@.len() == 7);
    assert("between"@[0] == 'b');
    reveal_strlit("contains");
    assert("contains"@.len() == 8);
    assert("contains"@[0] == 'c');
    reveal_strlit("regex");
    assert("regex"@.len() == 5);
    assert("regex"@[0] == 'r');
    reveal_strlit("in");
    assert("in"@.len() == 2);
    assert("in"@[0] == 'i');
    reveal_strlit("not_in");
    assert("not_in"@.len() == 6);
    assert("not_in"@[0] == 'n');
    assert(operator_key(a).len() == operator_key(b).len());
    assert(operator_key(a)[0] == operator_key(b)[0]);
}

/// One condition of a group.
#[derive(Debug)]
pub struct Condition {
    pub target: ConditionTarget,
    pub operator: ConditionOperator,
    pub value: JsonValue,
    pub value_end: Option<JsonValue>,
}

pub struct ConditionModel {
    pub target: ConditionTarget,
    pub operator: ConditionOperator,
    pub value: Json,
    pub value_end: Option<Json>,
}

impl View for Condition {
    type V = ConditionModel;

    open spec fn view(&self) -> ConditionModel {
        ConditionModel {
            target: self.target,
            operator: self.operator,
            value: self.value@,
            value_end: match self.value_end {
                Some(v) => Some(v@),
                None => None,
            },
        }
    }
}

} // verus!
