use chrono::Duration;
use stripe_subscriber_role::clock::Timestamp;
use stripe_subscriber_role::json::JsonValue;
use stripe_subscriber_role::models::condition::{
    Condition, ConditionOperator, ConditionTarget as T,
};
use stripe_subscriber_role::models::facts::Facts;
use stripe_subscriber_role::models::rule::{ConditionGroup, RuleTree};
use stripe_subscriber_role::services::condition_eval::{
    evaluate, evaluate_at, evaluate_single, int_match, string_match,
};

fn c(target: T, op: ConditionOperator, value: JsonValue) -> Condition {
    Condition {
        target,
        operator: op,
        value,
        value_end: None,
    }
}

fn one_group(conds: Vec<Condition>) -> RuleTree {
    RuleTree {
        grant_on_any_relation: false,
        groups: vec![ConditionGroup { conditions: conds }],
    }
}

fn or_groups(g: Vec<Vec<Condition>>) -> RuleTree {
    RuleTree {
        grant_on_any_relation: false,
        groups: g
            .into_iter()
            .map(|cs| ConditionGroup { conditions: cs })
            .collect(),
    }
}

fn facts() -> Facts {
    Facts::default()
}

fn text(s: &str) -> JsonValue {
    JsonValue::Str(s.to_string())
}

fn list(items: &[&str]) -> JsonValue {
    JsonValue::Array(items.iter().map(|s| text(s)).collect())
}

fn num(n: i64) -> JsonValue {
    JsonValue::Int(n as i128)
}

fn at(t: chrono::DateTime<chrono::Utc>) -> Timestamp {
    Timestamp {
        secs: t.timestamp(),
        nanos: t.timestamp_subsec_nanos(),
    }
}

#[test]
fn convention_42_no_groups_no_grant_means_nobody() {
    assert!(!evaluate(&RuleTree::default(), &facts()));
}

#[test]
fn grant_on_any_short_circuits_true() {
    let t = RuleTree {
        grant_on_any_relation: true,
        groups: vec![],
    };
    assert!(evaluate(&t, &facts()));
}

#[test]
fn active_subscriber_bool() {
    let t = one_group(vec![c(
        T::HasActiveSubscription,
        ConditionOperator::Eq,
        JsonValue::Bool(true),
    )]);
    let mut f = facts();
    assert!(!evaluate(&t, &f));
    f.has_active_subscription = true;
    assert!(evaluate(&t, &f));
}

#[test]
fn plan_amount_between() {
    let mut cond = c(T::PlanAmount, ConditionOperator::Between, num(1000));
    cond.value_end = Some(num(5000));
    let t = one_group(vec![cond]);
    let mut f = facts();
    f.plan_amount_cents = 2000;
    assert!(evaluate(&t, &f));
    f.plan_amount_cents = 9000;
    assert!(!evaluate(&t, &f));
}

#[test]
fn subscription_age_from_timestamp() {
    let t = one_group(vec![c(
        T::SubscriptionAgeDays,
        ConditionOperator::Gte,
        num(30),
    )]);
    let mut f = facts();
    f.subscription_started_at = Some(at(chrono::Utc::now() - Duration::days(45)));
    assert!(evaluate(&t, &f));
    f.subscription_started_at = Some(at(chrono::Utc::now() - Duration::days(10)));
    assert!(!evaluate(&t, &f));
}

#[test]
fn days_until_renewal_future() {
    let t = one_group(vec![c(
        T::DaysUntilRenewal,
        ConditionOperator::Lte,
        num(7),
    )]);
    let mut f = facts();
    f.current_period_end = Some(at(chrono::Utc::now() + Duration::days(3)));
    assert!(evaluate(&t, &f));
    f.current_period_end = Some(at(chrono::Utc::now() + Duration::days(20)));
    assert!(!evaluate(&t, &f));
}

#[test]
fn missing_int_fails_closed() {
    let t = one_group(vec![c(T::CustomerAgeDays, ConditionOperator::Gte, num(0))]);
    let f = facts(); // customer_created_at = None
    assert!(!evaluate(&t, &f));
}

#[test]
fn status_in_list() {
    let t = one_group(vec![c(
        T::SubscriptionStatus,
        ConditionOperator::In,
        list(&["active", "trialing"]),
    )]);
    let mut f = facts();
    f.subscription_status = Some("trialing".into());
    assert!(evaluate(&t, &f));
    f.subscription_status = Some("canceled".into());
    assert!(!evaluate(&t, &f));
}

#[test]
fn null_status_neq_passes() {
    let t = one_group(vec![c(
        T::SubscriptionStatus,
        ConditionOperator::Neq,
        text("canceled"),
    )]);
    let f = facts();
    assert!(evaluate(&t, &f));
}

#[test]
fn email_domain_regex() {
    let t = one_group(vec![c(
        T::EmailDomain,
        ConditionOperator::Eq,
        text("acme.com"),
    )]);
    let mut f = facts();
    f.email_domain = Some("acme.com".into());
    assert!(evaluate(&t, &f));
    f.email_domain = Some("gmail.com".into());
    assert!(!evaluate(&t, &f));
}

#[test]
fn subscribed_to_product_eq() {
    let t = one_group(vec![c(
        T::SubscribedToProduct,
        ConditionOperator::Eq,
        text("prod_pro"),
    )]);
    let mut f = facts();
    f.product_ids = vec!["prod_basic".into()];
    assert!(!evaluate(&t, &f));
    f.product_ids = vec!["prod_basic".into(), "prod_pro".into()];
    assert!(evaluate(&t, &f));
}

#[test]
fn subscribed_to_price_in_any() {
    let t = one_group(vec![c(
        T::SubscribedToPrice,
        ConditionOperator::In,
        list(&["price_a", "price_b"]),
    )]);
    let mut f = facts();
    f.price_ids = vec!["price_b".into()];
    assert!(evaluate(&t, &f));
    f.price_ids = vec!["price_z".into()];
    assert!(!evaluate(&t, &f));
}

#[test]
fn subscribed_to_product_not_in() {
    let t = one_group(vec![c(
        T::SubscribedToProduct,
        ConditionOperator::NotIn,
        list(&["prod_free"]),
    )]);
    let mut f = facts();
    f.product_ids = vec!["prod_pro".into()];
    assert!(evaluate(&t, &f));
    f.product_ids = vec!["prod_free".into()];
    assert!(!evaluate(&t, &f));
    // empty set ⇒ overlaps nothing ⇒ NotIn true
    f.product_ids = vec![];
    assert!(evaluate(&t, &f));
}

#[test]
fn realistic_tier_rule() {
    // "@Pro" : (active sub to prod_pro) OR (lifetime spend ≥ $500)
    let t = or_groups(vec![
        vec![
            c(
                T::HasActiveSubscription,
                ConditionOperator::Eq,
                JsonValue::Bool(true),
            ),
            c(
                T::SubscribedToProduct,
                ConditionOperator::Eq,
                text("prod_pro"),
            ),
        ],
        vec![c(T::LifetimeSpend, ConditionOperator::Gte, num(50000))],
    ]);

    let mut f = facts();
    f.has_active_subscription = true;
    f.product_ids = vec!["prod_pro".into()];
    assert!(evaluate(&t, &f));

    let mut f = facts();
    f.lifetime_spend_cents = 60000;
    assert!(evaluate(&t, &f));

    let mut f = facts();
    f.has_active_subscription = true;
    f.product_ids = vec!["prod_basic".into()];
    f.lifetime_spend_cents = 100;
    assert!(!evaluate(&t, &f));
}

#[test]
fn a_group_without_conditions_admits_nobody() {
    let t = or_groups(vec![vec![], vec![]]);
    let mut f = facts();
    f.is_customer = true;
    assert!(!evaluate(&t, &f));
}

#[test]
fn regex_matches_anywhere_in_the_text() {
    let mut f = facts();
    f.email_domain = Some("mail.acme.com".into());
    let matching = one_group(vec![c(
        T::EmailDomain,
        ConditionOperator::Regex,
        text(r"acme\.(com|org)$"),
    )]);
    assert!(evaluate(&matching, &f));
    let other = one_group(vec![c(
        T::EmailDomain,
        ConditionOperator::Regex,
        text(r"^acme"),
    )]);
    assert!(!evaluate(&other, &f));
    let broken = one_group(vec![c(
        T::EmailDomain,
        ConditionOperator::Regex,
        text(r"("),
    )]);
    assert!(!evaluate(&broken, &f));
    let huge = one_group(vec![c(
        T::EmailDomain,
        ConditionOperator::Regex,
        text(r"(\w{1,1000}){1,1000}"),
    )]);
    assert!(!evaluate(&huge, &f));
}

#[test]
fn contains_and_exclusions_on_strings() {
    let mut f = facts();
    f.country_code = Some("US".into());
    for (op, value, expected) in [
        (ConditionOperator::Contains, text("U"), true),
        (ConditionOperator::Contains, text("u"), false),
        (ConditionOperator::Neq, text("US"), false),
        (ConditionOperator::Neq, text("DE"), true),
        (ConditionOperator::Neq, num(1), false),
        (ConditionOperator::NotIn, list(&["DE", "FR"]), true),
        (ConditionOperator::NotIn, list(&["US"]), false),
        (ConditionOperator::Gt, text("A"), false),
    ] {
        let t = one_group(vec![c(T::CountryCode, op, value)]);
        assert_eq!(evaluate(&t, &f), expected, "{:?}", op);
    }
}

#[test]
fn numbers_compare_by_every_operator() {
    let mut f = facts();
    f.successful_payments = 5;
    for (op, n, expected) in [
        (ConditionOperator::Eq, 5, true),
        (ConditionOperator::Neq, 5, false),
        (ConditionOperator::Gt, 5, false),
        (ConditionOperator::Gte, 5, true),
        (ConditionOperator::Lt, 6, true),
        (ConditionOperator::Lte, 4, false),
        (ConditionOperator::Between, 1, false),
    ] {
        let t = one_group(vec![c(T::SuccessfulPayments, op, num(n))]);
        assert_eq!(evaluate(&t, &f), expected, "{:?}", op);
    }
}

#[test]
fn days_are_rounded_toward_zero() {
    let now = Timestamp {
        secs: 1_700_000_000,
        nanos: 0,
    };
    let mut f = facts();
    f.current_period_end = Some(Timestamp {
        secs: now.secs - 43_200,
        nanos: 0,
    });
    let zero = one_group(vec![c(T::DaysUntilRenewal, ConditionOperator::Eq, num(0))]);
    assert!(evaluate_at(&zero, &f, now));
    f.current_period_end = Some(Timestamp {
        secs: now.secs + 86_400,
        nanos: 0,
    });
    let one = one_group(vec![c(T::DaysUntilRenewal, ConditionOperator::Eq, num(1))]);
    assert!(evaluate_at(&one, &f, now));
    assert!(!evaluate_at(&zero, &f, now));
}

#[test]
fn unknown_texts_pass_neq_alone() {
    for (op, value, expected) in [
        (ConditionOperator::Neq, text("US"), true),
        (ConditionOperator::Eq, text("US"), false),
        (ConditionOperator::Contains, text(""), false),
        (ConditionOperator::In, list(&[]), false),
        (ConditionOperator::NotIn, list(&[]), false),
        (ConditionOperator::NotIn, list(&["US"]), false),
    ] {
        let t = one_group(vec![c(T::CountryCode, op, value)]);
        assert_eq!(evaluate(&t, &facts()), expected, "{:?}", op);
    }
}

#[test]
fn operators_of_another_kind_admit_nobody() {
    let mut f = facts();
    f.has_active_subscription = true;
    f.successful_payments = 5;
    f.product_ids = vec!["p".to_string()];
    for (target, op, value) in [
        (T::HasActiveSubscription, ConditionOperator::Neq, JsonValue::Bool(false)),
        (T::SuccessfulPayments, ConditionOperator::NotIn, list(&[])),
        (T::SubscribedToProduct, ConditionOperator::Neq, text("q")),
        (T::CountryCode, ConditionOperator::Lt, text("ZZ")),
    ] {
        let t = one_group(vec![c(target, op, value)]);
        assert!(!evaluate(&t, &f), "{:?}", target);
    }
}

#[test]
fn single_conditions_are_matched() {
    let least = c(T::PlanAmount, ConditionOperator::Gte, JsonValue::Int(10));
    assert!(int_match(&least, Some(10)));
    assert!(!int_match(&least, Some(9)));
    assert!(!int_match(&least, None));
    let other = c(T::Currency, ConditionOperator::Neq, JsonValue::Str("usd".to_string()));
    assert!(string_match(&other, &Some("eur".to_string())));
    assert!(!string_match(&other, &Some("usd".to_string())));
    assert!(string_match(&other, &None));
    let now = Timestamp { secs: 0, nanos: 0 };
    let mut facts = Facts::default();
    facts.plan_amount_cents = 10;
    assert!(evaluate_single(&least, &facts, now));
    facts.plan_amount_cents = 9;
    assert!(!evaluate_single(&least, &facts, now));
}
