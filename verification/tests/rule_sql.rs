use stripe_subscriber_role::json::JsonValue;
use stripe_subscriber_role::models::condition::{
    Condition, ConditionOperator as Op, ConditionTarget as T,
};
use stripe_subscriber_role::models::rule::{ConditionGroup, RuleTree};
use stripe_subscriber_role::services::rule_sql::{build_rule_where, escape_like, Bind};

fn cond(t: T, op: Op, v: JsonValue) -> Condition {
    Condition {
        target: t,
        operator: op,
        value: v,
        value_end: None,
    }
}

fn one(c: Condition) -> RuleTree {
    RuleTree {
        grant_on_any_relation: false,
        groups: vec![ConditionGroup {
            conditions: vec![c],
        }],
    }
}

fn text(s: &str) -> JsonValue {
    JsonValue::Str(s.to_string())
}

fn list(items: &[&str]) -> JsonValue {
    JsonValue::Array(items.iter().map(|s| text(s)).collect())
}

#[test]
fn grant_on_any_is_true() {
    let t = RuleTree {
        grant_on_any_relation: true,
        groups: vec![],
    };
    let (sql, binds) = build_rule_where(&t, 2);
    assert_eq!(sql, "TRUE");
    assert!(binds.is_empty());
}

#[test]
fn convention_42_empty_is_false() {
    let (sql, _) = build_rule_where(&RuleTree::default(), 2);
    assert_eq!(sql, "FALSE");
}

#[test]
fn active_bool_eq() {
    let (sql, binds) = build_rule_where(
        &one(cond(T::HasActiveSubscription, Op::Eq, JsonValue::Bool(true))),
        2,
    );
    assert!(sql.contains("mf.has_active_subscription = $3"));
    assert!(matches!(binds[0], Bind::Bool(true)));
}

#[test]
fn plan_amount_gte() {
    let (sql, binds) =
        build_rule_where(&one(cond(T::PlanAmount, Op::Gte, JsonValue::Int(1000))), 0);
    assert!(sql.contains(">= $1"));
    assert!(matches!(binds[0], Bind::Int(1000)));
}

#[test]
fn product_eq_uses_any() {
    let (sql, binds) = build_rule_where(
        &one(cond(T::SubscribedToProduct, Op::Eq, text("prod_x"))),
        2,
    );
    assert!(sql.contains("$3 = ANY(mf.product_ids)"));
    assert!(matches!(&binds[0], Bind::Text(s) if s == "prod_x"));
}

#[test]
fn price_in_uses_overlap() {
    let (sql, binds) = build_rule_where(
        &one(cond(
            T::SubscribedToPrice,
            Op::In,
            list(&["price_a", "price_b"]),
        )),
        2,
    );
    assert!(sql.contains("mf.price_ids && $3::text[]"));
    assert!(matches!(&binds[0], Bind::TextArray(v) if v.len() == 2));
}

#[test]
fn product_not_in_negated_overlap() {
    let (sql, _) = build_rule_where(
        &one(cond(
            T::SubscribedToProduct,
            Op::NotIn,
            list(&["prod_free"]),
        )),
        2,
    );
    assert!(sql.contains("NOT (mf.product_ids && $3::text[])"));
}

#[test]
fn status_neq_is_distinct_from() {
    let (sql, _) = build_rule_where(
        &one(cond(T::SubscriptionStatus, Op::Neq, text("canceled"))),
        0,
    );
    assert!(sql.contains("IS DISTINCT FROM"));
}

#[test]
fn sub_age_uses_epoch_expr() {
    let (sql, _) = build_rule_where(
        &one(cond(T::SubscriptionAgeDays, Op::Gte, JsonValue::Int(30))),
        0,
    );
    assert!(sql.contains("EXTRACT(EPOCH FROM (now() - mf.subscription_started_at))"));
}

#[test]
fn between_two_binds() {
    let mut c = cond(T::LifetimeSpend, Op::Between, JsonValue::Int(1000));
    c.value_end = Some(JsonValue::Int(5000));
    let (sql, binds) = build_rule_where(&one(c), 0);
    assert!(sql.contains(">= $1") && sql.contains("<= $2"));
    assert_eq!(binds.len(), 2);
}

#[test]
fn whole_clauses_are_written_out() {
    let t = RuleTree {
        grant_on_any_relation: false,
        groups: vec![
            ConditionGroup {
                conditions: vec![
                    cond(T::CountryCode, Op::In, list(&["US", "DE"])),
                    cond(T::Currency, Op::NotIn, list(&["eur"])),
                ],
            },
            ConditionGroup { conditions: vec![] },
            ConditionGroup {
                conditions: vec![cond(T::EmailDomain, Op::Contains, text("100%_a\\b"))],
            },
        ],
    };
    let (sql, binds) = build_rule_where(&t, 2);
    assert_eq!(
        sql,
        "((mf.country_code = ANY($3::text[]) AND (mf.currency IS NOT NULL AND mf.currency <> ALL($4::text[]))) \
         OR FALSE OR (mf.email_domain LIKE $5))"
    );
    assert_eq!(binds.len(), 3);
    assert!(matches!(&binds[2], Bind::Text(s) if s == "%100\\%\\_a\\\\b%"));
}

#[test]
fn remaining_operators_are_written_out() {
    for (c, sql) in [
        (
            cond(T::SuccessfulPayments, Op::Neq, JsonValue::Int(3)),
            "((mf.successful_payments <> $1))",
        ),
        (
            cond(T::TotalMrr, Op::Lt, text("not a number")),
            "(((mf.total_mrr_cents) < $1))",
        ),
        (
            cond(T::PlanAmount, Op::Eq, JsonValue::Int(5)),
            "((mf.plan_amount_cents = $1))",
        ),
        (
            cond(T::Currency, Op::Eq, text("usd")),
            "((mf.currency = $1))",
        ),
        (
            cond(T::EmailDomain, Op::Regex, text("^a")),
            "((mf.email_domain ~ $1))",
        ),
        (
            cond(T::PlanAmount, Op::Between, JsonValue::Int(5)),
            "((((mf.plan_amount_cents) >= $1 AND (mf.plan_amount_cents) <= $2)))",
        ),
        (cond(T::Currency, Op::In, list(&[])), "((FALSE))"),
        (
            cond(T::Currency, Op::NotIn, list(&[])),
            "((mf.currency IS NOT NULL))",
        ),
        (
            cond(T::DaysUntilRenewal, Op::Gte, JsonValue::Int(0)),
            "(((TRUNC(EXTRACT(EPOCH FROM (mf.current_period_end - now())) / 86400)) >= $1))",
        ),
        (cond(T::SubscribedToPrice, Op::In, list(&[])), "((FALSE))"),
        (cond(T::SubscribedToPrice, Op::NotIn, list(&[])), "((TRUE))"),
        (cond(T::SubscribedToPrice, Op::Gt, text("x")), "((FALSE))"),
    ] {
        assert_eq!(build_rule_where(&one(c), 0).0, sql);
    }
}

#[test]
fn parameters_are_numbered_in_order_from_the_offset() {
    let mut between = cond(T::LifetimeSpend, Op::Between, JsonValue::Int(1));
    between.value_end = Some(JsonValue::Int(2));
    let t = RuleTree {
        grant_on_any_relation: false,
        groups: vec![
            ConditionGroup {
                conditions: vec![
                    between,
                    cond(T::Currency, Op::NotIn, list(&[])),
                    cond(T::SubscribedToPrice, Op::Eq, text("p")),
                ],
            },
            ConditionGroup {
                conditions: vec![cond(T::CountryCode, Op::In, list(&["US"]))],
            },
        ],
    };
    let numbers = |sql: &str| -> Vec<usize> {
        sql.split('$')
            .skip(1)
            .map(|rest| {
                let digits: String = rest.chars().take_while(|c| c.is_ascii_digit()).collect();
                digits.parse().unwrap()
            })
            .collect()
    };
    for offset in [0, 2, 98] {
        let (sql, binds) = build_rule_where(&t, offset);
        assert_eq!(binds.len(), 4);
        let expected: Vec<usize> = (offset + 1..offset + 5).collect();
        assert_eq!(numbers(&sql), expected);
        assert!(matches!(&binds[2], Bind::Text(s) if s == "p"));
    }
}

#[test]
fn texts_are_escaped_part_by_part() {
    let pattern = |s: &str| match &build_rule_where(&one(cond(T::Currency, Op::Contains, text(s))), 0).1[0]
    {
        Bind::Text(p) => p[1..p.len() - 1].to_string(),
        _ => panic!("no pattern"),
    };
    assert_eq!(pattern("50%_"), "50\\%\\_");
    assert_eq!(pattern("a%") + &pattern("\\b"), pattern("a%\\b"));
    assert_ne!(pattern("\\%"), pattern("%"));
}

#[test]
fn wildcards_are_escaped() {
    assert_eq!(escape_like("50%_a\\b"), "50\\%\\_a\\\\b");
    assert_eq!(escape_like("plain"), "plain");
}
