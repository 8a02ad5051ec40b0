use stripe_subscriber_role::clock::Timestamp;
use stripe_subscriber_role::models::facts::Facts;
use stripe_subscriber_role::services::member_facts::{
    aggregate_member_facts, charge_per_period, email_domain, is_active_status, member_numbers_fit,
    status_rank, CustomerRow, FactsRow, SubRow,
};

fn moment(secs: i64) -> Option<Timestamp> {
    Some(Timestamp { secs, nanos: 0 })
}

fn customer() -> CustomerRow {
    CustomerRow {
        email: None,
        country: None,
        currency: None,
        delinquent: false,
        stripe_created_at: None,
        lifetime_spend_cents: 0,
        successful_payments: 0,
    }
}

fn sub(status: &str) -> SubRow {
    SubRow {
        status: status.to_string(),
        price_id: None,
        product_id: None,
        unit_amount_cents: 0,
        currency: None,
        interval: None,
        interval_count: 1,
        quantity: 1,
        cancel_at_period_end: false,
        current_period_end: None,
        trial_end: None,
        started_at: None,
        monthly_cents: 0,
    }
}

#[test]
fn no_relation_means_no_facts() {
    assert!(aggregate_member_facts(&vec![], &vec![]).is_none());
    assert!(aggregate_member_facts(&vec![customer()], &vec![]).is_some());
    assert!(aggregate_member_facts(&vec![], &vec![sub("canceled")]).is_some());
}

#[test]
fn customers_are_put_together() {
    let mut a = customer();
    a.lifetime_spend_cents = 100;
    a.successful_payments = 2;
    a.stripe_created_at = moment(500);
    let mut b = customer();
    b.email = Some("Ann@Mail.ACME.com".to_string());
    b.country = Some("DE".to_string());
    b.delinquent = true;
    b.lifetime_spend_cents = 50;
    b.successful_payments = 1;
    b.stripe_created_at = moment(300);
    let mut c = customer();
    c.email = Some("other@x.y".to_string());
    c.currency = Some("eur".to_string());
    let mut active = sub("active");
    active.currency = Some("usd".to_string());
    let m = aggregate_member_facts(&vec![a, b, c], &vec![active]).unwrap();
    assert_eq!(m.lifetime_spend_cents, 150);
    assert_eq!(m.successful_payments, 3);
    assert!(m.is_delinquent);
    assert_eq!(m.email.as_deref(), Some("Ann@Mail.ACME.com"));
    assert_eq!(m.email_domain.as_deref(), Some("mail.acme.com"));
    assert_eq!(m.country_code.as_deref(), Some("DE"));
    assert_eq!(m.currency.as_deref(), Some("eur"));
    assert_eq!(m.customer_created_at, moment(300));
}

#[test]
fn active_subscriptions_decide() {
    let mut a = sub("active");
    a.unit_amount_cents = 500;
    a.quantity = 3;
    a.interval = Some("month".to_string());
    a.product_id = Some("prod_b".to_string());
    a.price_id = Some("price_1".to_string());
    a.started_at = moment(200);
    a.current_period_end = moment(900);
    a.monthly_cents = 1500;
    let mut b = sub("trialing");
    b.unit_amount_cents = 1500;
    b.quantity = 0;
    b.interval = Some("year".to_string());
    b.product_id = Some("prod_a".to_string());
    b.price_id = Some("price_1".to_string());
    b.started_at = moment(100);
    b.trial_end = moment(150);
    b.cancel_at_period_end = true;
    b.currency = Some("usd".to_string());
    b.monthly_cents = 125;
    let mut gone = sub("canceled");
    gone.unit_amount_cents = 99_999;
    gone.product_id = Some("prod_z".to_string());
    gone.started_at = moment(1);
    gone.monthly_cents = 99_999;
    let m = aggregate_member_facts(&vec![], &vec![a, b, gone]).unwrap();
    assert!(m.has_active_subscription);
    assert_eq!(m.active_subscription_count, 2);
    assert_eq!(m.subscription_status.as_deref(), Some("active"));
    assert!(m.is_trialing && !m.is_past_due && m.cancels_at_period_end);
    // of two plans with the same charge the later one is the primary one
    assert_eq!(m.plan_amount_cents, 1500);
    assert_eq!(m.billing_interval.as_deref(), Some("year"));
    assert_eq!(m.total_mrr_cents, 1625);
    assert_eq!(m.subscription_started_at, moment(100));
    assert_eq!(m.current_period_end, moment(900));
    assert_eq!(m.trial_end, moment(150));
    assert_eq!(m.currency.as_deref(), Some("usd"));
    assert_eq!(m.product_ids, vec!["prod_a", "prod_b"]);
    assert_eq!(m.price_ids, vec!["price_1"]);
}

#[test]
fn headline_status_is_the_most_favorable_one() {
    let status = |list: &[&str]| {
        let subs: Vec<SubRow> = list.iter().map(|s| sub(s)).collect();
        aggregate_member_facts(&vec![customer()], &subs)
            .unwrap()
            .subscription_status
    };
    assert_eq!(status(&["canceled", "past_due", "unpaid"]).as_deref(), Some("past_due"));
    assert_eq!(status(&["incomplete_expired", "strange"]).as_deref(), Some("strange"));
    assert_eq!(status(&["incomplete", "canceled"]).as_deref(), Some("incomplete"));
    assert_eq!(status(&[]), None);
    let ranks: Vec<i32> = [
        "active", "trialing", "past_due", "unpaid", "paused", "incomplete", "canceled", "other",
    ]
    .iter()
    .map(|s| status_rank(s))
    .collect();
    assert_eq!(ranks, vec![7, 6, 5, 4, 3, 2, 1, 0]);
    assert!(is_active_status("active") && is_active_status("trialing"));
    assert!(!is_active_status("past_due"));
}

#[test]
fn domains_stand_behind_the_last_at_sign() {
    assert_eq!(email_domain(Some("\"a@b\"@C.De")).as_deref(), Some("c.de"));
    assert_eq!(email_domain(Some("nobody")), None);
    assert_eq!(email_domain(Some("a@")).as_deref(), Some(""));
    assert_eq!(email_domain(None), None);
}

#[test]
fn numbers_that_do_not_fit_are_found() {
    let mut a = customer();
    a.lifetime_spend_cents = i64::MAX;
    let mut b = customer();
    b.lifetime_spend_cents = 1;
    assert!(member_numbers_fit(&vec![customer()], &vec![sub("active")]));
    assert!(!member_numbers_fit(&vec![a, b], &vec![]));
    let mut s = sub("active");
    s.unit_amount_cents = i64::MAX;
    s.quantity = 2;
    assert_eq!(charge_per_period(&s), None);
    assert!(!member_numbers_fit(&vec![], &vec![s]));
    let mut s = sub("canceled");
    s.unit_amount_cents = i64::MAX;
    s.quantity = 2;
    assert!(member_numbers_fit(&vec![], &vec![s]));
    let mut p = customer();
    p.successful_payments = i32::MAX;
    let mut q = customer();
    q.successful_payments = 1;
    assert!(!member_numbers_fit(&vec![p, q], &vec![]));
}

#[test]
fn stored_facts_become_facts() {
    let f = Facts::from(FactsRow {
        is_customer: true,
        customer_created_at: moment(5),
        country_code: Some("US".to_string()),
        currency: Some("usd".to_string()),
        email_domain: Some("a.b".to_string()),
        is_delinquent: true,
        lifetime_spend_cents: 7,
        successful_payments: -3,
        has_active_subscription: true,
        active_subscription_count: 2,
        subscription_status: Some("active".to_string()),
        is_trialing: false,
        is_past_due: true,
        cancels_at_period_end: false,
        plan_amount_cents: 11,
        billing_interval: Some("month".to_string()),
        subscription_started_at: moment(6),
        current_period_end: moment(8),
        total_mrr_cents: 13,
        product_ids: vec!["p".to_string()],
        price_ids: vec!["q".to_string()],
    });
    assert!(f.is_customer && f.is_delinquent && f.has_active_subscription && f.is_past_due);
    assert!(!f.is_trialing && !f.cancels_at_period_end);
    assert_eq!(f.successful_payments, -3);
    assert_eq!(f.active_subscription_count, 2);
    assert_eq!(f.plan_amount_cents, 11);
    assert_eq!(f.total_mrr_cents, 13);
    assert_eq!(f.lifetime_spend_cents, 7);
    assert_eq!(f.country_code.as_deref(), Some("US"));
    assert_eq!(f.customer_created_at, moment(5));
    assert_eq!(f.subscription_started_at, moment(6));
    assert_eq!(f.current_period_end, moment(8));
    assert_eq!(f.product_ids, vec!["p"]);
    assert_eq!(f.price_ids, vec!["q"]);
}
