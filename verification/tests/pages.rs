use stripe_subscriber_role::clock::Timestamp;
use stripe_subscriber_role::json::JsonValue;
use stripe_subscriber_role::models::condition::{ConditionOperator, ConditionTarget};
use stripe_subscriber_role::routes::catalog::{
    kind_str, operator_catalog, operator_entry_json, target_catalog, target_entry_json,
};
use stripe_subscriber_role::routes::pages::{
    html_escape, render_iframe_no_token, render_inline_error, render_signin_page, role_config_body,
};
use stripe_subscriber_role::routes::verify::{
    login_url, path_only, refreshed_json, status_json, verify_page_html, MembershipRow,
};
use stripe_subscriber_role::schema::{accept_empty_config, build_iframe_config};

fn text<'a>(v: &'a JsonValue, key: &str) -> &'a str {
    v.get(key).and_then(|x| x.as_str()).unwrap()
}

#[test]
fn markup_in_texts_is_written_out() {
    assert_eq!(html_escape("<b>&amp;</b>"), "&lt;b&gt;&amp;amp;&lt;/b&gt;");
    let page = render_inline_error("https://b", "a<b");
    assert!(page.contains("<p>a&lt;b</p>"));
    assert!(page.contains("href=\"https://b/favicon.ico\""));
    assert!(page.starts_with("<!DOCTYPE html><html><head>"));
    assert!(page.contains("body{font-family:"));
    assert!(page.ends_with("</body></html>"));
}

#[test]
fn pages_name_the_service() {
    let page = render_iframe_no_token("https://b");
    assert!(page.contains("<code>https://b</code>"));
    let page = render_signin_page("https://b", "x > y");
    assert!(page.contains("x &gt; y"));
    assert!(page.contains("new URL(\"https://b\").origin"));
    assert!(page.contains("forEach(f=>{\n"));
}

#[test]
fn configuration_page_is_filled_in() {
    let t = "__BASE_URL__|__GUILD_ID__|__ROLE_ID__|__IFRAME_TOKEN__|__READ_ONLY__|__BASE_URL__";
    assert_eq!(role_config_body(t, "b", "g", "r", "", true), "b|g|r||1|b");
    assert_eq!(role_config_body(t, "b", "g", "r", "tok", false), "b|g|r|tok|0|b");
    assert_eq!(verify_page_html("a {{BASE_URL}} b", "https://x"), "a https://x b");
}

#[test]
fn paths_follow_the_host() {
    assert_eq!(path_only("https://x.y/a/b/"), "/a/b");
    assert_eq!(path_only("https://x.y/a//"), "/a");
    assert_eq!(path_only("https://x.y/"), "");
    assert_eq!(path_only("https://x.y"), "");
    assert_eq!(path_only("x.y/a"), "");
    assert_eq!(path_only("x:/"), path_only("x://"));
    assert_eq!(path_only("x://"), path_only("x:///"));
    assert_eq!(
        login_url("https://gate", "https://x.y/plug"),
        "https://gate/auth/login?return_to=%2Fplug%2Fverify"
    );
}

#[test]
fn member_status_is_written_out() {
    let row = MembershipRow {
        display_name: "Shop".to_string(),
        livemode: false,
        has_active_subscription: true,
        subscription_status: Some("active".to_string()),
        is_trialing: false,
        cancels_at_period_end: true,
        plan_amount_cents: 900,
        currency: None,
        total_mrr_cents: 75,
        current_period_end: Some(Timestamp {
            secs: 0,
            nanos: 0,
        }),
    };
    let v = status_json(&Some("Ann".to_string()), &vec![row]);
    assert_eq!(v.get("signed_in_discord").unwrap().as_bool(), Some(true));
    assert_eq!(text(&v, "discord_username"), "Ann");
    let m = match v.get("memberships") {
        Some(JsonValue::Array(a)) => a[0].copy(),
        _ => panic!("an array"),
    };
    assert_eq!(text(&m, "status"), "active");
    assert_eq!(text(&m, "current_period_end"), "1970-01-01T00:00:00Z");
    assert!(matches!(m.get("plan_amount_cents"), Some(JsonValue::Int(900))));
    let v = status_json(&None, &vec![]);
    assert_eq!(v.get("signed_in_discord").unwrap().as_bool(), Some(false));
    assert!(matches!(v.get("discord_username"), Some(JsonValue::Null)));
    assert_eq!(refreshed_json().get("refreshed").unwrap().as_bool(), Some(true));
}

#[test]
fn dashboard_is_told_of_the_page() {
    let v = build_iframe_config("https://b", "g", "r");
    assert_eq!(text(&v, "embed_url"), "https://b/admin/g/role/r");
    assert_eq!(text(&v, "ui_mode"), "iframe");
    assert_eq!(text(&v, "name"), "Stripe Subscriber Role");
    assert!(matches!(v.get("version"), Some(JsonValue::Int(1))));
    assert_eq!(accept_empty_config().get("success").unwrap().as_bool(), Some(true));
}

#[test]
fn targets_are_described() {
    let v = target_entry_json(ConditionTarget::PlanAmount);
    assert_eq!(text(&v, "key"), "plan_amount");
    assert_eq!(text(&v, "label"), "Plan price (per period)");
    assert_eq!(text(&v, "kind"), "int");
    assert_eq!(text(&v, "group"), "subscription");
    assert_eq!(v.get("is_money").unwrap().as_bool(), Some(true));
    assert!(v.get("picker").is_none() && v.get("choices").is_none());
    let v = target_entry_json(ConditionTarget::SubscribedToPrice);
    assert_eq!(text(&v, "picker"), "price");
    assert_eq!(text(&v, "kind"), "string_list");
    let v = target_entry_json(ConditionTarget::BillingInterval);
    assert_eq!(v.get("choices").unwrap().strings(), vec!["day", "week", "month", "year"]);
    let v = target_entry_json(ConditionTarget::EmailDomain);
    assert_eq!(text(&v, "group"), "customer");
    assert_eq!(text(&v, "help"), "Domain of the customer email, e.g. acme.com.");
    assert_eq!(kind_str(ConditionTarget::IsTrialing.kind()), "bool");
    assert!(matches!(target_catalog(), JsonValue::Array(a) if a.len() == 21));
}

#[test]
fn operators_are_described() {
    let v = operator_entry_json(ConditionOperator::NotIn);
    assert_eq!(text(&v, "key"), "not_in");
    assert_eq!(text(&v, "label"), "is not one of");
    assert_eq!(v.get("value_is_list").unwrap().as_bool(), Some(true));
    assert_eq!(v.get("needs_value_end").unwrap().as_bool(), Some(false));
    let valid = v.get("valid_for").unwrap();
    assert_eq!(valid.get("string").unwrap().as_bool(), Some(true));
    assert_eq!(valid.get("int").unwrap().as_bool(), Some(false));
    assert!(matches!(operator_catalog(), JsonValue::Array(a) if a.len() == 11));
}

#[test]
fn keys_read_back() {
    for key in ["has_active_subscription", "email_domain", "total_mrr"] {
        assert_eq!(ConditionTarget::from_key(key).unwrap().as_str(), key);
    }
    assert!(ConditionTarget::from_key("unknown").is_none());
    for key in ["eq", "between", "not_in"] {
        assert_eq!(ConditionOperator::from_key(key).unwrap().as_str(), key);
    }
    assert!(ConditionOperator::from_key("EQ").is_none());
    assert!(ConditionTarget::TotalMrr.is_money() && !ConditionTarget::IsCustomer.is_money());
}
