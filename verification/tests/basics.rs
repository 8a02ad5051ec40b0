use stripe_subscriber_role::bytes::constant_time_eq;
use stripe_subscriber_role::json::{from_value, parse_json, JsonValue};
use stripe_subscriber_role::models::condition::{Condition, ConditionOperator, ConditionTarget};
use stripe_subscriber_role::models::rule::{ConditionGroup, RuleTree};
use stripe_subscriber_role::models::rule_json::{
    rule_tree_from_json, rule_tree_to_json, stored_rule_tree,
};
use stripe_subscriber_role::numeral::{decimal_i64, parse_i64};
use stripe_subscriber_role::order::{insert_ascending, is_before};
use stripe_subscriber_role::services::stripe::ChargeTotals;
use stripe_subscriber_role::services::stripe_wire::{Expandable, RawCharge};
use stripe_subscriber_role::tasks::reconcile::{
    spend_updates, stamp_sql, ImportPhase, TouchedMembers,
};
use stripe_subscriber_role::text::{
    cut_str, join, pieces_of, replace_str, str_contains, str_starts_with, strip_end,
};
use stripe_subscriber_role::text_map::TextMap;

fn read(s: &str) -> Option<RuleTree> {
    rule_tree_from_json(&parse_json(s.as_bytes()).unwrap())
}

#[test]
fn stored_rules_read_back() {
    let tree = RuleTree {
        grant_on_any_relation: false,
        groups: vec![
            ConditionGroup {
                conditions: vec![Condition {
                    target: ConditionTarget::PlanAmount,
                    operator: ConditionOperator::Between,
                    value: JsonValue::Int(5),
                    value_end: Some(JsonValue::Int(9)),
                }],
            },
            ConditionGroup { conditions: vec![] },
        ],
    };
    let back = rule_tree_from_json(&rule_tree_to_json(&tree)).unwrap();
    assert_eq!(format!("{:?}", back), format!("{:?}", tree));
}

#[test]
fn null_bounds_read_back_as_missing() {
    let t = read(
        r#"{"groups":[{"conditions":[{"target":"currency","operator":"eq","value":null,"value_end":null}]}]}"#,
    )
    .unwrap();
    let c = &t.groups[0].conditions[0];
    assert!(matches!(c.value, JsonValue::Null));
    assert!(c.value_end.is_none());
}

#[test]
fn rules_are_read_tolerantly() {
    let t = read(r#"{"other":1}"#).unwrap();
    assert!(!t.grant_on_any_relation && t.groups.is_empty());
    let t = read(r#"[true,[[[{"target":{"currency":null},"operator":"eq","value":1}]]]]"#).unwrap();
    assert!(t.grant_on_any_relation);
    assert_eq!(t.groups[0].conditions[0].target, ConditionTarget::Currency);
    for broken in [
        "null",
        "7",
        r#"{"grant_on_any_relation":null}"#,
        r#"{"groups":null}"#,
        r#"{"groups":[{"conditions":[{"target":"nope","operator":"eq","value":1}]}]}"#,
        r#"{"groups":[{"conditions":[{"target":"currency","operator":"eq"}]}]}"#,
        r#"{"groups":[{"conditions":[{"target":{"currency":1},"operator":"eq","value":1}]}]}"#,
        r#"[true,[],1]"#,
    ] {
        assert!(read(broken).is_none(), "{broken}");
        let t = stored_rule_tree(&parse_json(broken.as_bytes()).unwrap());
        assert!(!t.grant_on_any_relation && t.groups.is_empty());
    }
}

#[test]
fn documents_are_taken_over() {
    let v = from_value(serde_json::Value::String("x".to_string()));
    assert_eq!(v.as_str(), Some("x"));
    let v = parse_json(br#"{"b":[18446744073709551615,-9223372036854775808],"a":1e3}"#).unwrap();
    assert!(matches!(v.get("a"), Some(JsonValue::Float(t)) if t == "1000.0"));
    match v.get("b") {
        Some(JsonValue::Array(items)) => {
            assert!(matches!(items[0], JsonValue::Int(18446744073709551615)));
            assert_eq!(items[0].as_i64(), None);
            assert_eq!(items[1].as_i64(), Some(i64::MIN));
        }
        _ => panic!("an array"),
    }
    assert!(parse_json(b"{").is_none());
    assert!(parse_json(b"").is_none());
    assert!(v.get("c").is_none());
}

#[test]
fn maps_keep_one_value_for_each_key() {
    let mut m = TextMap::new();
    m.insert("a", 1);
    m.insert("b", 2);
    m.insert("a", 3);
    assert_eq!(m.len(), 2);
    assert_eq!(m.get("a"), Some(&3));
    assert_eq!(m.entry(0), ("a", &3));
    assert_eq!(m.entry(1), ("b", &2));
    assert_eq!(m.get("c"), None);
}

#[test]
fn touched_members_stand_once() {
    let mut t = TouchedMembers::new();
    t.touch(Some("1".to_string()));
    t.touch(None);
    t.touch(Some("2".to_string()));
    t.touch(Some("1".to_string()));
    assert_eq!(t.len(), 2);
    assert_eq!((t.member(0), t.member(1)), ("1", "2"));
}

#[test]
fn imports_go_on_without_charges() {
    let mut phase = ImportPhase::Subscriptions;
    let mut seen = vec![phase];
    while phase != ImportPhase::Done {
        phase = phase.after(phase != ImportPhase::Charges && phase != ImportPhase::Facts);
        seen.push(phase);
    }
    assert_eq!(
        seen,
        vec![
            ImportPhase::Subscriptions,
            ImportPhase::Customers,
            ImportPhase::Charges,
            ImportPhase::Facts,
            ImportPhase::Stamp,
            ImportPhase::FanOut,
            ImportPhase::Done,
        ]
    );
    assert_eq!(ImportPhase::Customers.after(false), ImportPhase::Failed);
    assert_eq!(ImportPhase::Failed.after(true), ImportPhase::Failed);
}

#[test]
fn spend_is_stored_for_each_customer() {
    let charge = |customer: &str, amount: i64| RawCharge {
        id: "ch".to_string(),
        customer: Some(Expandable::Id(customer.to_string())),
        amount: Some(amount),
        paid: Some(true),
        refunded: None,
        status: Some("succeeded".to_string()),
    };
    let mut totals = ChargeTotals::new();
    totals.add_page(&vec![charge("a", 5), charge("b", 7), charge("a", 6)]);
    let updates: Vec<(String, i64, i32)> = spend_updates(&totals)
        .into_iter()
        .map(|u| (u.customer_id, u.amount_cents, u.payments))
        .collect();
    assert_eq!(
        updates,
        vec![("a".to_string(), 11, 2), ("b".to_string(), 7, 1)]
    );
    assert!(stamp_sql(true).contains("last_backfill_at = now()"));
    assert!(!stamp_sql(false).contains("last_backfill_at"));
}

#[test]
fn bytes_are_compared_to_the_end() {
    assert!(constant_time_eq(b"abc", b"abc"));
    assert!(!constant_time_eq(b"abc", b"abd"));
    assert!(!constant_time_eq(b"abc", b"ab"));
    assert!(constant_time_eq(b"", b""));
}

#[test]
fn numerals_read_back() {
    for n in [0, 7, -1, 1000, i64::MAX, i64::MIN] {
        assert_eq!(decimal_i64(n), n.to_string());
        assert_eq!(parse_i64(&decimal_i64(n)), Some(n));
    }
    for s in ["", "+", "-", "1 ", "0x1", "9223372036854775808", "-9223372036854775809", "１"] {
        assert_eq!(parse_i64(s), s.parse::<i64>().ok(), "{s}");
    }
    assert_eq!(parse_i64("+12"), Some(12));
    assert_eq!(parse_i64("-0012"), Some(-12));
}

#[test]
fn strings_are_ordered_and_cut() {
    for (a, b) in [("a", "b"), ("", "a"), ("ab", "b"), ("z", "é"), ("é", "🦀"), ("a", "ab"), ("b", "a")] {
        assert_eq!(is_before(a, b), a < b, "{a} {b}");
    }
    let mut v = Vec::new();
    for s in ["c", "a", "b", "a", "é"] {
        insert_ascending(&mut v, s);
    }
    assert_eq!(v, vec!["a", "b", "c", "é"]);
    assert_eq!(cut_str("a=b=c", '='), Some(("a", "b=c")));
    assert_eq!(cut_str("abc", '='), None);
    assert_eq!(pieces_of("a,,b,", ','), vec!["a", "", "b", ""]);
    assert_eq!(pieces_of("", ','), vec![""]);
    assert_eq!(strip_end("a//b//", '/'), "a//b");
    assert_eq!(replace_str("aaa", "aa", "b"), "ba");
    assert_eq!(join(&vec!["x".to_string(), "y".to_string()], ", "), "x, y");
}

#[test]
fn parts_of_strings_are_found() {
    for (hay, needle) in [("abc", "b"), ("abc", ""), ("", ""), ("", "a"), ("aab", "ab"), ("é🦀", "🦀"), ("ab", "abc"), ("abc", "ac")] {
        assert_eq!(str_contains(hay, needle), hay.contains(needle), "{hay} {needle}");
        assert_eq!(str_starts_with(hay, needle), hay.starts_with(needle), "{hay} {needle}");
    }
    assert!(str_starts_with("abc", "ab"));
}
