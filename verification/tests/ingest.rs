use std::collections::{BTreeMap, BTreeSet};

use stripe_subscriber_role::json::parse_json;
use stripe_subscriber_role::services::ingest::{
    customer_step, effective_link, link_subscription, normalize_discord_id, resolve_from_meta,
    CustomerStep, LinkStep,
};
use stripe_subscriber_role::services::stripe::{
    parse_customer_object, parse_subscription_object, ChargeTotals, CustomerFields, SubFields,
};
use stripe_subscriber_role::services::stripe_wire::{Expandable, RawCharge};
use stripe_subscriber_role::tasks::reconcile::spend_updates;
use stripe_subscriber_role::text_map::TextMap;

fn sub(json: &str) -> SubFields {
    parse_subscription_object(&parse_json(json.as_bytes()).unwrap()).unwrap()
}

fn customer(json: &str) -> CustomerFields {
    parse_customer_object(&parse_json(json.as_bytes()).unwrap()).unwrap()
}

fn meta(pairs: &[(&str, &str)]) -> TextMap<String> {
    let mut m = TextMap::new();
    for (k, v) in pairs {
        m.insert(k, v.to_string());
    }
    m
}

#[test]
fn ids_are_taken_bare_or_out_of_a_mention() {
    let id = |s: &str| normalize_discord_id(s);
    assert_eq!(id("123456789012345678").as_deref(), Some("123456789012345678"));
    assert_eq!(id("  12345\t").as_deref(), Some("12345"));
    assert_eq!(id("<@123456789012345678>").as_deref(), Some("123456789012345678"));
    assert_eq!(id("user:123456789012345").as_deref(), Some("123456789012345"));
    assert_eq!(id("1234"), None);
    assert_eq!(id("user 12345"), None);
    assert_eq!(id(""), None);
    assert_eq!(id("   "), None);
    assert_eq!(id("no digits"), None);
}

#[test]
fn long_runs_of_digits_are_cut() {
    let digits = "1234567890123456789012345678";
    assert_eq!(normalize_discord_id(digits).as_deref(), Some(&digits[..25]));
    let two = "x123456789012345y12345678901234567";
    assert_eq!(normalize_discord_id(two).as_deref(), Some("123456789012345"));
}

#[test]
fn runs_of_other_decimal_digits_count_too() {
    let arabic: String = std::iter::repeat('٣').take(16).collect();
    assert_eq!(normalize_discord_id(&format!("é{arabic}")), Some(arabic));
    assert_eq!(
        normalize_discord_id("é123456789012345").as_deref(),
        Some("123456789012345")
    );
}

#[test]
fn metadata_is_tried_key_by_key() {
    let m = meta(&[
        ("mine", "11111"),
        ("discord_user_id", "22222"),
        ("discord", "33333"),
    ]);
    assert_eq!(resolve_from_meta(&m, "mine").as_deref(), Some("11111"));
    assert_eq!(resolve_from_meta(&m, "other").as_deref(), Some("22222"));
    let m = meta(&[("discord_user_id", "nobody"), ("discordId", "44444")]);
    assert_eq!(resolve_from_meta(&m, "x").as_deref(), Some("44444"));
    assert_eq!(resolve_from_meta(&meta(&[]), "x"), None);
    assert_eq!(resolve_from_meta(&meta(&[("discord_id", "x")]), "x"), None);
}

#[test]
fn customers_are_removed_stored_or_inherit() {
    assert!(matches!(
        customer_step(&customer(r#"{"id":"c","deleted":true,"metadata":{"discord_id":"12345"}}"#), "k"),
        CustomerStep::Remove
    ));
    assert!(matches!(
        customer_step(&customer(r#"{"id":"c","metadata":{"k":"12345"}}"#), "k"),
        CustomerStep::Store(id) if id == "12345"
    ));
    assert!(matches!(
        customer_step(&customer(r#"{"id":"c"}"#), "k"),
        CustomerStep::Inherit
    ));
}

#[test]
fn subscriptions_are_linked_in_order() {
    let linked = |s: &SubFields, reference: Option<&str>, stored: Option<&str>| {
        match link_subscription(s, "k", reference, stored.map(String::from)) {
            LinkStep::Linked(id) => id,
            LinkStep::AskCustomer(c) => format!("ask {c}"),
            LinkStep::Unlinked => "none".to_string(),
        }
    };
    let all = sub(
        r#"{"id":"s","metadata":{"k":"11111"},"customer":{"id":"c","metadata":{"k":"22222"}}}"#,
    );
    assert_eq!(linked(&all, Some("33333"), Some("44444")), "11111");
    let by_customer = sub(r#"{"id":"s","customer":{"id":"c","metadata":{"k":"22222"}}}"#);
    assert_eq!(linked(&by_customer, Some("33333"), Some("44444")), "22222");
    let bare = sub(r#"{"id":"s","customer":{"id":"c"}}"#);
    assert_eq!(linked(&bare, Some("33333"), Some("44444")), "33333");
    assert_eq!(linked(&bare, Some("not an id"), Some("44444")), "44444");
    assert_eq!(linked(&bare, None, None), "ask c");
    assert_eq!(linked(&sub(r#"{"id":"s"}"#), None, None), "none");
}

#[test]
fn known_links_are_kept() {
    let id = |s: &str| Some(s.to_string());
    assert_eq!(effective_link(id("11111"), id("22222")), id("11111"));
    assert_eq!(effective_link(None, id("22222")), id("22222"));
    assert_eq!(effective_link(id("11111"), None), id("11111"));
    assert_eq!(effective_link(None, None), None);
}

/// The records of an account, kept in memory.
#[derive(Debug, Clone, Default, PartialEq)]
struct Store {
    customers: BTreeMap<String, (Option<String>, i64, i32)>,
    subscriptions: BTreeMap<String, (Option<String>, Option<String>)>,
}

impl Store {
    fn put_customer(&mut self, c: &CustomerFields) -> Option<String> {
        let found = match customer_step(c, "k") {
            CustomerStep::Remove => {
                self.customers.remove(&c.id);
                return None;
            }
            CustomerStep::Store(id) => Some(id),
            CustomerStep::Inherit => self
                .subscriptions
                .values()
                .filter(|(customer, _)| customer.as_ref() == Some(&c.id))
                .find_map(|(_, member)| member.clone()),
        };
        let row = self.customers.entry(c.id.clone()).or_insert((None, 0, 0));
        row.0 = found.clone().or(row.0.take());
        if found.is_some() {
            for (customer, member) in self.subscriptions.values_mut() {
                if customer.as_ref() == Some(&c.id) && member.is_none() {
                    *member = found.clone();
                }
            }
        }
        found
    }

    fn put_subscription(&mut self, s: &SubFields) -> Option<String> {
        let stored = s.customer.as_ref().and_then(|c| self.put_customer(c));
        let found = match link_subscription(s, "k", None, stored) {
            LinkStep::Linked(id) => Some(id),
            LinkStep::AskCustomer(c) => self.customers.get(&c).and_then(|row| row.0.clone()),
            LinkStep::Unlinked => None,
        };
        let own = self.subscriptions.get(&s.id).and_then(|row| row.1.clone());
        let member = effective_link(found, own);
        self.subscriptions
            .insert(s.id.clone(), (s.customer_id.clone(), member.clone()));
        if let (Some(m), Some(c)) = (&member, &s.customer_id) {
            if let Some(row) = self.customers.get_mut(c) {
                row.0.get_or_insert_with(|| m.clone());
            }
        }
        member
    }

    fn import(
        &mut self,
        subs: &[SubFields],
        customers: &[CustomerFields],
        charges: Option<&Vec<RawCharge>>,
    ) -> BTreeSet<String> {
        let mut touched = BTreeSet::new();
        for s in subs {
            touched.extend(self.put_subscription(s));
        }
        for c in customers {
            touched.extend(self.put_customer(c));
        }
        if let Some(charges) = charges {
            let mut totals = ChargeTotals::new();
            totals.add_page(charges);
            for row in self.customers.values_mut() {
                row.1 = 0;
                row.2 = 0;
            }
            for u in spend_updates(&totals) {
                if let Some(row) = self.customers.get_mut(&u.customer_id) {
                    row.1 = u.amount_cents;
                    row.2 = u.payments;
                    touched.extend(row.0.clone());
                }
            }
        }
        touched
    }
}

#[test]
fn importing_again_leaves_the_records() {
    let subs = vec![
        sub(r#"{"id":"s1","customer":"c1"}"#),
        sub(r#"{"id":"s2","customer":"c1","metadata":{"k":"11111"}}"#),
        sub(r#"{"id":"s3","customer":{"id":"c2","metadata":{"k":"22222"}}}"#),
        sub(r#"{"id":"s4","customer":{"id":"c3","deleted":true}}"#),
        sub(r#"{"id":"s5","customer":"c4"}"#),
    ];
    let customers = vec![
        customer(r#"{"id":"c1"}"#),
        customer(r#"{"id":"c2","metadata":{"k":"22222"}}"#),
        customer(r#"{"id":"c4"}"#),
        customer(r#"{"id":"c5","metadata":{"k":"55555"}}"#),
    ];
    let charges: Vec<RawCharge> = [("c1", 500), ("c5", 700), ("c1", 600)]
        .into_iter()
        .map(|(c, amount)| RawCharge {
            id: "ch".to_string(),
            customer: Some(Expandable::Id(c.to_string())),
            amount: Some(amount),
            paid: Some(true),
            refunded: None,
            status: Some("succeeded".to_string()),
        })
        .collect();

    let mut store = Store::default();
    store.customers.insert("c3".to_string(), (None, 9, 1));
    store.customers.insert("c1".to_string(), (None, 1, 1));
    let touched = store.import(&subs, &customers, Some(&charges));
    let id = |s: &str| Some(s.to_string());
    assert_eq!(store.subscriptions["s1"], (id("c1"), id("11111")));
    assert_eq!(store.subscriptions["s3"], (id("c2"), id("22222")));
    assert_eq!(store.subscriptions["s5"], (id("c4"), None));
    assert_eq!(store.customers["c1"], (id("11111"), 1100, 2));
    assert_eq!(store.customers["c4"], (None, 0, 0));
    assert_eq!(store.customers["c5"], (id("55555"), 700, 1));
    assert!(!store.customers.contains_key("c3"));
    assert_eq!(touched.len(), 3);

    let once = store.clone();
    assert!(store.import(&subs, &customers, Some(&charges)).is_subset(&touched));
    assert_eq!(store, once);
    assert!(store.import(&subs, &customers, None).is_subset(&touched));
    assert_eq!(store, once);
}

#[test]
fn an_unlisted_customer_leaves_a_subscription_open() {
    let subs = vec![
        sub(r#"{"id":"s1","customer":{"id":"c1"}}"#),
        sub(r#"{"id":"s2","customer":{"id":"c1"},"metadata":{"k":"11111"}}"#),
    ];
    let id = |s: &str| Some(s.to_string());
    let mut store = Store::default();
    store.import(&subs, &[], None);
    assert_eq!(store.customers["c1"].0, id("11111"));
    assert_eq!(store.subscriptions["s1"], (id("c1"), None));
    store.import(&subs, &[], None);
    assert_eq!(store.subscriptions["s1"], (id("c1"), id("11111")));
    let twice = store.clone();
    store.import(&subs, &[], None);
    assert_eq!(store, twice);
}
