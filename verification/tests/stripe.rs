use chrono::Utc;
use hmac::{Hmac, Mac};
use sha2::Sha256;
use stripe_subscriber_role::clock::Timestamp;
use stripe_subscriber_role::error::AppError;
use stripe_subscriber_role::json::{parse_json, JsonValue};
use stripe_subscriber_role::services::stripe::{
    collect_customers, collect_subscriptions, describe_account, describe_by_key, page_query,
    parse_customer_object, parse_event, parse_subscription_object, prices_query, products_query,
    refused_request, subscription_path, subscription_query, subscriptions_query, synth_account_id,
    verify_webhook_signature, verify_webhook_signature_at, ChargeTotals, Pager, StripeClient,
    MAX_PAGES, WEBHOOK_TOLERANCE_SECS,
};
use stripe_subscriber_role::services::stripe_wire::{
    AccountSettings, BusinessProfile, DashboardSettings, Expandable, RawAccount, RawCharge,
    RawCustomer, RawPrice, RawProduct, RawSubscription, Recurring,
};

type HmacSha256 = Hmac<Sha256>;

fn sign(secret: &str, t: i64, payload: &[u8]) -> String {
    let mut signed = Vec::new();
    signed.extend_from_slice(t.to_string().as_bytes());
    signed.push(b'.');
    signed.extend_from_slice(payload);
    let mut mac = HmacSha256::new_from_slice(secret.as_bytes()).unwrap();
    mac.update(&signed);
    hex::encode(mac.finalize().into_bytes())
}

fn json(s: &str) -> JsonValue {
    parse_json(s.as_bytes()).unwrap()
}

fn moment(secs: i64) -> Option<Timestamp> {
    Some(Timestamp { secs, nanos: 0 })
}

#[test]
fn webhook_sig_round_trip() {
    let secret = "whsec_test";
    let payload = br#"{"id":"evt_1","type":"customer.subscription.updated"}"#;
    let t = Utc::now().timestamp();
    let sig = sign(secret, t, payload);
    let header = format!("t={t},v1={sig}");
    assert!(verify_webhook_signature(
        payload,
        &header,
        secret,
        WEBHOOK_TOLERANCE_SECS
    ));
}

#[test]
fn webhook_sig_rejects_wrong_secret() {
    let payload = br#"{}"#;
    let t = Utc::now().timestamp();
    let sig = sign("right", t, payload);
    let header = format!("t={t},v1={sig}");
    assert!(!verify_webhook_signature(
        payload,
        &header,
        "wrong",
        WEBHOOK_TOLERANCE_SECS
    ));
}

#[test]
fn webhook_sig_rejects_old_timestamp() {
    let secret = "whsec_test";
    let payload = br#"{}"#;
    let t = Utc::now().timestamp() - 10_000;
    let sig = sign(secret, t, payload);
    let header = format!("t={t},v1={sig}");
    assert!(!verify_webhook_signature(
        payload,
        &header,
        secret,
        WEBHOOK_TOLERANCE_SECS
    ));
}

#[test]
fn webhook_sig_accepts_multiple_v1() {
    let secret = "whsec_test";
    let payload = br#"{}"#;
    let t = Utc::now().timestamp();
    let good = sign(secret, t, payload);
    let header = format!("t={t},v1=deadbeef,v1={good}");
    assert!(verify_webhook_signature(
        payload,
        &header,
        secret,
        WEBHOOK_TOLERANCE_SECS
    ));
}

#[test]
fn parse_subscription_reads_item_price() {
    let obj = json(
        r#"{
        "id": "sub_1",
        "status": "active",
        "customer": "cus_1",
        "cancel_at_period_end": false,
        "current_period_end": 1700000000,
        "metadata": {"discord_user_id": "123"},
        "items": { "data": [ {
            "quantity": 1,
            "price": {
                "id": "price_1",
                "unit_amount": 1500,
                "currency": "usd",
                "recurring": { "interval": "month", "interval_count": 1 },
                "product": "prod_1"
            }
        } ] }
    }"#,
    );
    let f = parse_subscription_object(&obj).unwrap();
    assert_eq!(f.id, "sub_1");
    assert_eq!(f.customer_id.as_deref(), Some("cus_1"));
    assert_eq!(f.price_id.as_deref(), Some("price_1"));
    assert_eq!(f.product_id.as_deref(), Some("prod_1"));
    assert_eq!(f.unit_amount_cents, 1500);
    assert_eq!(f.interval.as_deref(), Some("month"));
    assert_eq!(
        f.metadata.get("discord_user_id").map(String::as_str),
        Some("123")
    );
}

#[test]
fn synth_id_is_stable_and_mode_aware() {
    let a = synth_account_id("rk_live_abc", true);
    let b = synth_account_id("rk_live_abc", true);
    assert_eq!(a, b);
    assert!(a.contains("live"));
    assert!(synth_account_id("rk_test_abc", false).contains("test"));
}

#[test]
fn synth_id_has_the_head_of_the_digest() {
    assert_eq!(
        synth_account_id("abc", false),
        "acct_key_test_ba7816bf8f01cfea"
    );
}

#[test]
fn signature_header_is_read_part_by_part() {
    let secret = "s";
    let payload = b"body";
    let good = sign(secret, 1000, payload);
    let ok = |header: &str, now: i64| verify_webhook_signature_at(payload, header, secret, 300, now);
    assert!(ok(&format!("t=1000,v1={good}"), 1300));
    assert!(ok(&format!("t=1000,v1={good}"), 700));
    assert!(!ok(&format!("t=1000,v1={good}"), 1301));
    assert!(!ok(&format!("t=1000,v1={good}"), 699));
    assert!(ok(&format!("v0=x,t= 1000 ,v1= {good} ,"), 1000));
    assert!(ok(&format!("t=1,t=1000,v1={good}"), 1000));
    assert!(!ok(&format!("t=1000,t=x,v1={good}"), 1000));
    assert!(!ok(&format!(" t=1000,v1={good}"), 1000));
    assert!(!ok("t=1000", 1000));
    assert!(!ok(&format!("v1={good}"), 1000));
    assert!(!ok(&format!("t=-9223372036854775808,v1={good}"), 1000));
    assert!(!ok("", 1000));
}

#[test]
fn replayed_webhook_expires() {
    let payload = b"{}";
    let header = format!("t=1000,v1={}", sign("whsec", 1000, payload));
    let accepted = |now| verify_webhook_signature_at(payload, &header, "whsec", 300, now);
    assert!(accepted(700));
    assert!(accepted(1300));
    assert!(!accepted(1301));
    assert!(!accepted(699));
}

#[test]
fn event_has_id_type_and_object() {
    let (id, kind, object) =
        parse_event(br#"{"id":"evt_1","type":"x.y","data":{"object":{"a":[1,-2,1.5,true,null,"s"]}}}"#)
            .unwrap();
    assert_eq!(id, "evt_1");
    assert_eq!(kind, "x.y");
    let items = match object.get("a") {
        Some(JsonValue::Array(items)) => items,
        _ => panic!("an array"),
    };
    assert!(matches!(items[0], JsonValue::Int(1)));
    assert!(matches!(items[1], JsonValue::Int(-2)));
    assert!(matches!(&items[2], JsonValue::Float(t) if t == "1.5"));
    assert!(matches!(items[3], JsonValue::Bool(true)));
    assert!(matches!(items[4], JsonValue::Null));
    assert!(matches!(&items[5], JsonValue::Str(s) if s == "s"));
    assert!(parse_event(b"not json").is_none());
    assert!(parse_event(br#"{"id":"evt_1","type":"x"}"#).is_none());
    assert!(parse_event(br#"{"id":1,"type":"x","data":{"object":{}}}"#).is_none());
    assert!(parse_event(br#"{"id":"a","data":{"object":{}}}"#).is_none());
}

#[test]
fn subscription_defaults_and_fallbacks() {
    let f = parse_subscription_object(&json(r#"{"id":"sub_1"}"#)).unwrap();
    assert_eq!(f.status, "incomplete");
    assert_eq!(f.interval_count, 1);
    assert_eq!(f.quantity, 1);
    assert_eq!(f.unit_amount_cents, 0);
    assert!(f.customer_id.is_none() && f.customer.is_none() && f.price_id.is_none());
    assert!(f.current_period_end.is_none());

    let f = parse_subscription_object(&json(
        r#"{"id":"sub_1","created":50,"start_date":null,"customer":{"id":"cus_9","address":{"country":"DE"},"deleted":true},
            "items":{"data":[{"quantity":4294967298,"current_period_end":70,
              "price":{"id":"p","recurring":{"interval_count":3},"product":{"id":"prod_9","name":"N"}}},{}]}}"#,
    ))
    .unwrap();
    assert_eq!(f.quantity, 2);
    assert_eq!(f.interval_count, 3);
    assert_eq!(f.product_id.as_deref(), Some("prod_9"));
    assert_eq!(f.current_period_end, moment(70));
    assert_eq!(f.started_at, moment(50));
    assert_eq!(f.created_at, moment(50));
    assert_eq!(f.customer_id.as_deref(), Some("cus_9"));
    let c = f.customer.unwrap();
    assert_eq!(c.country.as_deref(), Some("DE"));
    assert!(c.deleted && !c.delinquent);
}

#[test]
fn unreadable_objects_are_refused() {
    assert!(parse_subscription_object(&json(r#"{}"#)).is_none());
    assert!(parse_subscription_object(&json(r#"{"id":7}"#)).is_none());
    assert!(parse_subscription_object(&json(r#"{"id":"s","metadata":null}"#)).is_none());
    assert!(parse_subscription_object(&json(r#"{"id":"s","items":null}"#)).is_none());
    assert!(parse_subscription_object(&json(r#"{"id":"s","created":1.5}"#)).is_none());
    assert!(parse_subscription_object(&json(r#"{"id":"s","created":9223372036854775808}"#)).is_none());
    assert!(parse_subscription_object(&json(r#""sub_1""#)).is_none());
    assert!(parse_customer_object(&json(r#"{"id":"c","metadata":{"a":1}}"#)).is_none());
    assert!(parse_customer_object(&json(r#"{"id":"c","email":3}"#)).is_none());
}

#[test]
fn records_may_come_as_arrays() {
    let c = parse_customer_object(&json(r#"["cus_1","a@b.c"]"#)).unwrap();
    assert_eq!(c.id, "cus_1");
    assert_eq!(c.email.as_deref(), Some("a@b.c"));
    assert!(parse_customer_object(&json(r#"["c",null,null,null,null,null,null,{},null,1]"#)).is_none());
}

#[test]
fn times_out_of_the_calendar_are_dropped() {
    let c = parse_customer_object(&json(r#"{"id":"c","created":8210266876799}"#)).unwrap();
    assert_eq!(c.created_at, moment(8_210_266_876_799));
    let c = parse_customer_object(&json(r#"{"id":"c","created":8210266876800}"#)).unwrap();
    assert!(c.created_at.is_none());
    let c = parse_customer_object(&json(r#"{"id":"c","created":-8334601228801}"#)).unwrap();
    assert!(c.created_at.is_none());
}

#[test]
fn client_address_has_no_slash_at_its_end() {
    let c = StripeClient::new("https://api.stripe.com//".to_string());
    assert_eq!(c.url("/v1/account"), "https://api.stripe.com/v1/account");
    assert_eq!(subscription_path("sub_1"), "/v1/subscriptions/sub_1");
}

#[test]
fn queries_are_spelled_out() {
    let q = subscriptions_query(&Some("sub_9".to_string()));
    let flat: Vec<String> = q.iter().map(|(k, v)| format!("{k}={v}")).collect();
    assert_eq!(
        flat,
        vec![
            "status=all",
            "limit=100",
            "expand[]=data.customer",
            "expand[]=data.items.data.price",
            "starting_after=sub_9"
        ]
    );
    assert_eq!(page_query(&None), vec![("limit", "100".to_string())]);
    assert_eq!(subscription_query().len(), 2);
    assert_eq!(products_query()[0], ("active", "true".to_string()));
    assert_eq!(prices_query()[2], ("expand[]", "data.product".to_string()));
}

#[test]
fn refused_requests_keep_a_snippet() {
    let body = "é".repeat(500);
    match refused_request("404 Not Found", &body) {
        AppError::StripeApi(m) => assert_eq!(m, format!("404 Not Found: {}", "é".repeat(400))),
        _ => panic!("another error"),
    }
    match refused_request("500", "short") {
        AppError::StripeApi(m) => assert_eq!(m, "500: short"),
        _ => panic!("another error"),
    }
}

#[test]
fn pager_walks_until_the_list_ends() {
    let mut p = Pager::new();
    assert!(p.wants_page());
    p.advance(true, Some("a".to_string()));
    assert!(p.wants_page());
    assert_eq!(p.starting_after.as_deref(), Some("a"));
    p.advance(false, Some("b".to_string()));
    assert!(!p.wants_page());

    let mut p = Pager::new();
    p.advance(true, None);
    assert!(!p.wants_page());

    let mut p = Pager::new();
    let mut pages = 0;
    while p.wants_page() {
        p.advance(true, Some("x".to_string()));
        pages += 1;
    }
    assert_eq!(pages, MAX_PAGES);
}

#[test]
fn pages_are_collected_in_order() {
    let mut subs = Vec::new();
    let page: Vec<RawSubscription> = ["a", "b"]
        .iter()
        .map(|id| RawSubscription::from_json(&json(&format!("{{\"id\":\"{id}\"}}"))).unwrap())
        .collect();
    assert_eq!(collect_subscriptions(&mut subs, page).as_deref(), Some("b"));
    assert_eq!(collect_subscriptions(&mut subs, vec![]), None);
    let ids: Vec<&str> = subs.iter().map(|s| s.id.as_str()).collect();
    assert_eq!(ids, vec!["a", "b"]);

    let mut customers = Vec::new();
    let page = vec![RawCustomer::from_json(&json(r#"{"id":"c","name":"N"}"#)).unwrap()];
    assert_eq!(collect_customers(&mut customers, page).as_deref(), Some("c"));
    assert_eq!(customers[0].name.as_deref(), Some("N"));
}

fn charge(customer: &str, amount: i64, paid: bool, refunded: bool, status: &str) -> RawCharge {
    RawCharge {
        id: "ch".to_string(),
        customer: Some(Expandable::Id(customer.to_string())),
        amount: Some(amount),
        paid: Some(paid),
        refunded: Some(refunded),
        status: Some(status.to_string()),
    }
}

#[test]
fn charges_are_summed_per_customer() {
    let mut totals = ChargeTotals::new();
    let page = vec![
        charge("a", 100, true, false, "succeeded"),
        charge("b", 50, true, false, "succeeded"),
        charge("a", 25, true, false, "succeeded"),
        charge("a", 1000, true, true, "succeeded"),
        charge("a", 1000, false, false, "succeeded"),
        charge("a", 1000, true, false, "pending"),
    ];
    assert!(totals.can_add(&page));
    totals.add_page(&page);
    totals.add_page(&vec![charge("a", 1, true, false, "succeeded")]);
    assert_eq!(totals.spend.get("a"), Some(&126));
    assert_eq!(totals.count.get("a"), Some(&3));
    assert_eq!(totals.spend.get("b"), Some(&50));
    assert_eq!(totals.spend.get("c"), None);
    assert!(!totals.can_add(&vec![charge("a", i64::MAX, true, false, "succeeded")]));
    assert!(totals.can_add(&vec![charge("z", i64::MAX, true, false, "succeeded")]));
}

fn account(id: Option<&str>) -> RawAccount {
    RawAccount {
        id: id.map(String::from),
        country: Some("US".to_string()),
        email: Some("a@b.c".to_string()),
        business_profile: None,
        settings: None,
    }
}

#[test]
fn account_is_named_by_what_it_tells() {
    let mut a = account(Some("acct_1"));
    a.business_profile = Some(BusinessProfile {
        name: Some("Biz".to_string()),
    });
    a.settings = Some(AccountSettings {
        dashboard: Some(DashboardSettings {
            display_name: Some("Dash".to_string()),
        }),
    });
    let info = describe_account(a, "rk_live_x");
    assert_eq!(info.display_name, "Dash");
    assert_eq!(info.account_id, "acct_1");
    assert!(info.livemode);
    assert_eq!(info.country.as_deref(), Some("US"));

    let mut a = account(None);
    a.business_profile = Some(BusinessProfile {
        name: Some("Biz".to_string()),
    });
    let info = describe_account(a, "rk_test_x");
    assert_eq!(info.display_name, "Biz");
    assert_eq!(info.account_id, synth_account_id("rk_test_x", false));
    assert!(!info.livemode);

    assert_eq!(describe_account(account(None), "k").display_name, "a@b.c");
    let mut a = account(Some("acct_2"));
    a.email = None;
    assert_eq!(describe_account(a, "k").display_name, "acct_2");
    let mut a = account(None);
    a.email = None;
    assert_eq!(describe_account(a, "k").display_name, "Stripe account");
}

#[test]
fn account_that_cannot_be_read_is_named_by_its_key() {
    let info = describe_by_key("rk_live_x", Ok(())).unwrap();
    assert_eq!(info.display_name, "Stripe account (live)");
    assert_eq!(info.account_id, synth_account_id("rk_live_x", true));
    let info = describe_by_key("rk_test_x", Ok(())).unwrap();
    assert_eq!(info.display_name, "Stripe account (test)");
    match describe_by_key("k", Err("no".to_string())) {
        Err(AppError::BadRequest(m)) => assert_eq!(
            m,
            "Stripe rejected this key, or it can't read customers: no. Create a restricted key \
             with read access to Customers, Subscriptions, Charges, Products and Prices."
        ),
        _ => panic!("another outcome"),
    }
}

#[test]
fn catalog_entries_fall_back_to_what_is_there() {
    let p = RawProduct {
        id: "prod_1".to_string(),
        name: None,
    };
    let e = p.into_entry();
    assert_eq!((e.id.as_str(), e.name.as_str()), ("prod_1", "prod_1"));

    let p = RawPrice {
        id: "price_1".to_string(),
        unit_amount: Some(5),
        currency: Some("usd".to_string()),
        nickname: None,
        recurring: Some(Recurring {
            interval: Some("year".to_string()),
            interval_count: None,
        }),
        product: Some(Expandable::Obj(Box::new(RawProduct {
            id: "prod_1".to_string(),
            name: Some("Pro".to_string()),
        }))),
    };
    let e = p.into_entry();
    assert_eq!(e.nickname.as_deref(), Some("Pro"));
    assert_eq!(e.product_id.as_deref(), Some("prod_1"));
    assert_eq!(e.interval.as_deref(), Some("year"));
    assert_eq!(e.unit_amount_cents, Some(5));
}
