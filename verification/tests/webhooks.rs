use hmac::{Hmac, Mac};
use sha2::Sha256;
use stripe_subscriber_role::json::{parse_json, JsonValue};
use stripe_subscriber_role::routes::admin::seal_secret;
use stripe_subscriber_role::routes::webhooks::{
    after_applying, after_recording, authenticate, authenticate_at, dropped_member, event_action,
    AccountLookup, EventAction, Recorded,
};

const SESSION: &str = "session secret";
const BODY: &[u8] = br#"{"id":"evt_1","type":"customer.updated","data":{"object":{"id":"cus_1"}}}"#;

fn header(secret: &str, t: i64, body: &[u8]) -> String {
    let mut mac = Hmac::<Sha256>::new_from_slice(secret.as_bytes()).unwrap();
    mac.update(format!("{t}.").as_bytes());
    mac.update(body);
    format!("t={t},v1={}", hex::encode(mac.finalize().into_bytes()))
}

fn account() -> AccountLookup {
    AccountLookup::Found(Some(seal_secret(SESSION, "whsec_1")))
}

fn refusal(account: &AccountLookup, signature: Option<&str>, body: &[u8]) -> (u16, &'static str) {
    let r = authenticate_at(account, SESSION, signature, body, 1000).unwrap_err();
    (r.status, r.text)
}

fn json(s: &str) -> JsonValue {
    parse_json(s.as_bytes()).unwrap()
}

#[test]
fn signed_delivery_is_accepted() {
    let sig = header("whsec_1", 1000, BODY);
    let event = authenticate_at(&account(), SESSION, Some(&sig), BODY, 1000).unwrap();
    assert_eq!(event.id, "evt_1");
    assert_eq!(event.kind, "customer.updated");
    assert_eq!(event.object.get("id").and_then(|v| v.as_str()), Some("cus_1"));
    let sig = header("whsec_1", chrono::Utc::now().timestamp(), BODY);
    assert!(authenticate(&account(), SESSION, Some(&sig), BODY).is_ok());
}

#[test]
fn every_other_delivery_is_answered() {
    let sig = header("whsec_1", 1000, BODY);
    let good = Some(sig.as_str());
    assert_eq!(refusal(&AccountLookup::Failed, good, BODY), (500, "db error"));
    assert_eq!(refusal(&AccountLookup::Unknown, good, BODY), (200, "unknown account"));
    assert_eq!(
        refusal(&AccountLookup::Found(None), good, BODY),
        (400, "no webhook secret configured")
    );
    assert_eq!(
        refusal(&AccountLookup::Found(Some(vec![1, 2, 3])), good, BODY),
        (500, "secret decrypt failed")
    );
    assert_eq!(refusal(&account(), None, BODY), (400, "missing signature"));
    assert_eq!(refusal(&account(), Some(""), BODY), (400, "missing signature"));
    assert_eq!(refusal(&account(), Some("t=1000,v1=00"), BODY), (401, "bad signature"));
    assert_eq!(refusal(&account(), good, b"{}"), (401, "bad signature"));
    let sig = header("whsec_1", 1000, b"{}");
    assert_eq!(refusal(&account(), Some(&sig), b"{}"), (400, "bad event body"));
    let sig = header("whsec_1", 1000, b"nonsense");
    assert_eq!(refusal(&account(), Some(&sig), b"nonsense"), (400, "bad event body"));
}

#[test]
fn recorded_deliveries_are_applied_once() {
    let key = seal_secret(SESSION, "rk_live_1");
    let answer = |recorded, enc: &[u8]| {
        let r = after_recording(recorded, SESSION, enc).unwrap_err();
        (r.status, r.text)
    };
    assert_eq!(after_recording(Recorded::New, SESSION, &key).unwrap(), "rk_live_1");
    assert_eq!(answer(Recorded::Duplicate, &key), (200, "duplicate ignored"));
    assert_eq!(answer(Recorded::Failed, &key), (500, "db error"));
    assert_eq!(answer(Recorded::New, b"?"), (500, "key decrypt failed"));
}

#[test]
fn failed_deliveries_are_opened_again() {
    let e = after_applying(Ok(Some("42".to_string())));
    assert_eq!((e.reply.status, e.reply.text, e.reopen), (200, "ok", false));
    assert_eq!(e.renew.as_deref(), Some("42"));
    let e = after_applying(Ok(None));
    assert_eq!((e.reply.status, e.reopen, e.renew), (200, false, None));
    let e = after_applying(Err(()));
    assert_eq!((e.reply.status, e.reply.text, e.reopen), (500, "apply failed", true));
    assert!(e.renew.is_none());
}

#[test]
fn subscription_events_store_the_subscription() {
    for kind in ["created", "updated", "deleted", "paused", "resumed"] {
        let kind = format!("customer.subscription.{kind}");
        assert!(matches!(
            event_action(&kind, &json(r#"{"id":"sub_1"}"#), "k"),
            EventAction::StoreSubscription(s) if s.id == "sub_1"
        ));
        assert!(matches!(event_action(&kind, &json("{}"), "k"), EventAction::Ignore));
    }
}

#[test]
fn customer_events_store_or_drop_the_customer() {
    for kind in ["customer.created", "customer.updated"] {
        assert!(matches!(
            event_action(kind, &json(r#"{"id":"cus_1"}"#), "k"),
            EventAction::StoreCustomer(c) if c.id == "cus_1"
        ));
        assert!(matches!(event_action(kind, &json("[]"), "k"), EventAction::Ignore));
    }
    let object = json(r#"{"id":"cus_1","deleted":true,"metadata":{"n":1,"k":"12345"}}"#);
    match event_action("customer.deleted", &object, "k") {
        EventAction::DropCustomer(d) => {
            assert_eq!(d.customer_id.as_deref(), Some("cus_1"));
            assert_eq!(d.member_by_metadata.as_deref(), Some("12345"));
            assert!(d.customer.is_none(), "metadata with a number cannot be read");
        }
        _ => panic!("another action"),
    }
    match event_action("customer.deleted", &json(r#"{"id":"cus_1","deleted":true}"#), "k") {
        EventAction::DropCustomer(d) => {
            assert!(d.member_by_metadata.is_none());
            assert!(d.customer.unwrap().deleted);
        }
        _ => panic!("another action"),
    }
    assert_eq!(
        dropped_member(Some("1".into()), Some("2".into())).as_deref(),
        Some("1")
    );
    assert_eq!(dropped_member(None, Some("2".into())).as_deref(), Some("2"));
}

#[test]
fn successful_charges_count() {
    let counts = |object: &str| match event_action("charge.succeeded", &json(object), "k") {
        EventAction::CountCharge(c, n) => Some((c, n)),
        EventAction::Ignore => None,
        _ => panic!("another action"),
    };
    assert_eq!(
        counts(r#"{"customer":"c","amount":5,"paid":true,"status":"succeeded"}"#),
        Some(("c".to_string(), 5))
    );
    assert_eq!(
        counts(r#"{"customer":"c","paid":true,"status":"succeeded"}"#),
        Some(("c".to_string(), 0))
    );
    assert_eq!(counts(r#"{"customer":"c","amount":5,"status":"succeeded"}"#), None);
    assert_eq!(counts(r#"{"customer":"c","amount":5,"paid":true}"#), None);
    assert_eq!(counts(r#"{"amount":5,"paid":true,"status":"succeeded"}"#), None);
    assert_eq!(
        counts(r#"{"customer":{"id":"c"},"amount":5,"paid":true,"status":"succeeded"}"#),
        None
    );
}

#[test]
fn checkouts_and_invoices_fetch_the_subscription() {
    let fetched = |kind: &str, object: &str| match event_action(kind, &json(object), "k") {
        EventAction::FetchSubscription(s, r) => Some((s, r)),
        EventAction::Ignore => None,
        _ => panic!("another action"),
    };
    assert_eq!(
        fetched(
            "checkout.session.completed",
            r#"{"subscription":"sub_1","client_reference_id":"777"}"#
        ),
        Some(("sub_1".to_string(), Some("777".to_string())))
    );
    assert_eq!(fetched("checkout.session.completed", r#"{"client_reference_id":"7"}"#), None);
    for kind in ["invoice.payment_failed", "invoice.paid"] {
        assert_eq!(
            fetched(kind, r#"{"subscription":"sub_2","client_reference_id":"7"}"#),
            Some(("sub_2".to_string(), None))
        );
        assert_eq!(
            fetched(
                kind,
                r#"{"subscription":null,"parent":{"subscription_details":{"subscription":"sub_3"}}}"#
            ),
            Some(("sub_3".to_string(), None))
        );
        assert_eq!(fetched(kind, r#"{"parent":{}}"#), None);
    }
    assert_eq!(fetched("payout.paid", r#"{"subscription":"sub_1"}"#), None);
}
