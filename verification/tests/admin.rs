use stripe_subscriber_role::clock::Timestamp;
use stripe_subscriber_role::error::AppError;
use stripe_subscriber_role::json::{parse_json, JsonValue};
use stripe_subscriber_role::models::rule::RuleTree;
use stripe_subscriber_role::models::rule_json::stored_rule_tree;
use stripe_subscriber_role::routes::admin::{
    account_catalog_json, account_connected_json, account_disconnected_json, account_json,
    account_list_json, account_not_connected, connect_request, count_query, entry_token,
    iframe_access, iframe_entry, link_token, looks_embedded, manager_access, preview_json,
    preview_step, preview_unavailable_json, require_account, require_connected, require_writable,
    role_config_json, role_link_missing, save_outcome, saved_json, token_error_message, visit_step,
    webhook_events_json, webhook_secret_request, webhook_secret_stored, AccountRow, ConnectBody,
    IframeSession, PreviewStep, RlTokenError, RoleConfigAccess, RoleConfigPageQuery, VerifiedToken,
    VisitStep, WebhookSecretBody,
};
use stripe_subscriber_role::services::stripe::{PriceCatalogEntry, ProductCatalogEntry};

fn account() -> AccountRow {
    AccountRow {
        id: 7,
        stripe_account_id: "acct_1".to_string(),
        display_name: "Shop".to_string(),
        country: None,
        livemode: true,
        discord_metadata_key: "discord_user_id".to_string(),
        webhook_configured: false,
        last_synced_at: Some(Timestamp {
            secs: 1_700_000_000,
            nanos: 5_000_000,
        }),
        last_backfill_at: None,
    }
}

fn text<'a>(v: &'a JsonValue, key: &str) -> &'a str {
    v.get(key).and_then(|x| x.as_str()).unwrap()
}

fn bad(r: Result<(), AppError>) -> String {
    match r {
        Err(AppError::BadRequest(m)) => m,
        _ => panic!("another outcome"),
    }
}

fn rule(json: &str) -> RuleTree {
    stored_rule_tree(&parse_json(json.as_bytes()).unwrap())
}

#[test]
fn account_document_tells_the_webhook_address() {
    let v = account_json("https://x.y/p", &account());
    assert_eq!(text(&v, "webhook_url"), "https://x.y/p/webhooks/stripe/7");
    assert_eq!(text(&v, "last_synced_at"), "2023-11-14T22:13:20.005Z");
    assert!(matches!(v.get("last_backfill_at"), Some(JsonValue::Null)));
    assert!(matches!(v.get("country"), Some(JsonValue::Null)));
    assert!(matches!(v.get("id"), Some(JsonValue::Int(7))));
    assert_eq!(v.get("livemode").and_then(|b| b.as_bool()), Some(true));
    let list = account_list_json("b", &vec![account(), account()]);
    assert!(matches!(list.get("accounts"), Some(JsonValue::Array(a)) if a.len() == 2));
    let connected = account_connected_json("b", &account());
    assert_eq!(text(connected.get("account").unwrap(), "display_name"), "Shop");
    assert_eq!(connected.get("webhook_events").unwrap().strings().len(), 8);
    assert_eq!(
        account_disconnected_json(1).get("removed").unwrap().as_bool(),
        Some(true)
    );
    assert_eq!(
        account_disconnected_json(0).get("removed").unwrap().as_bool(),
        Some(false)
    );
    assert_eq!(
        webhook_events_json().strings(),
        vec![
            "checkout.session.completed",
            "customer.subscription.created",
            "customer.subscription.updated",
            "customer.subscription.deleted",
            "customer.updated",
            "customer.deleted",
            "charge.succeeded",
            "invoice.payment_failed",
        ]
    );
}

#[test]
fn keys_are_looked_at_before_they_are_used() {
    let body = |key: &str| ConnectBody {
        api_key: key.to_string(),
        webhook_secret: Some("  ".to_string()),
        discord_metadata_key: None,
    };
    let refused = |key: &str| match connect_request(&body(key)) {
        Err(AppError::BadRequest(m)) => m,
        _ => panic!("another outcome"),
    };
    assert_eq!(refused(" \n"), "Paste your Stripe API key.");
    assert_eq!(
        refused("pk_live_1"),
        "That doesn't look like a Stripe secret/restricted key (expected rk_… or sk_…)."
    );
    let r = connect_request(&body(" rk_live_1 ")).unwrap();
    assert_eq!(r.api_key, "rk_live_1");
    assert_eq!(r.webhook_secret, None);
    assert_eq!(r.metadata_key, "discord_user_id");
    let r = connect_request(&ConnectBody {
        api_key: "sk_test_1".to_string(),
        webhook_secret: Some(" whsec_1 ".to_string()),
        discord_metadata_key: Some(" mine ".to_string()),
    })
    .unwrap();
    assert_eq!(r.webhook_secret.as_deref(), Some("whsec_1"));
    assert_eq!(r.metadata_key, "mine");
}

#[test]
fn signing_secrets_are_looked_at() {
    let set = |s: &str| {
        webhook_secret_request(&WebhookSecretBody {
            webhook_secret: s.to_string(),
        })
    };
    assert_eq!(set(" whsec_1 ").unwrap(), "whsec_1");
    assert!(matches!(set(""), Err(AppError::BadRequest(m)) if m == "Paste the webhook signing secret (whsec_…)."));
    assert!(matches!(set("sec"), Err(AppError::BadRequest(m))
        if m == "That doesn't look like a Stripe signing secret (expected whsec_…)."));
    assert!(matches!(webhook_secret_stored(0), Err(AppError::NotFound(m))
        if m == "That Stripe account isn't connected to this server."));
    assert_eq!(
        webhook_secret_stored(1)
            .unwrap()
            .get("webhook_configured")
            .unwrap()
            .as_bool(),
        Some(true)
    );
}

#[test]
fn catalog_is_written_out() {
    let v = account_catalog_json(
        &vec![ProductCatalogEntry {
            id: "p".to_string(),
            name: "P".to_string(),
        }],
        &vec![PriceCatalogEntry {
            id: "q".to_string(),
            product_id: None,
            nickname: Some("N".to_string()),
            unit_amount_cents: Some(5),
            currency: None,
            interval: None,
        }],
    );
    let first = |key: &str| match v.get(key) {
        Some(JsonValue::Array(a)) => a[0].copy(),
        _ => panic!("an array"),
    };
    assert_eq!(text(&first("products"), "name"), "P");
    assert_eq!(text(&first("prices"), "nickname"), "N");
    assert!(matches!(first("prices").get("unit_amount_cents"), Some(JsonValue::Int(5))));
    assert!(matches!(first("prices").get("currency"), Some(JsonValue::Null)));
    assert!(matches!(account_not_connected(), AppError::NotFound(m)
        if m == "That Stripe account isn't connected here."));
}

fn session(guild: &str, role: &str) -> Option<IframeSession> {
    Some(IframeSession {
        discord_id: "42".to_string(),
        guild_id: guild.to_string(),
        role_id: role.to_string(),
        read_only: true,
    })
}

#[test]
fn sessions_open_one_role_link() {
    let a = iframe_access(session("g", "r"), "g", "r").unwrap();
    assert_eq!((a.discord_id.as_str(), a.read_only), ("42", true));
    assert!(matches!(iframe_access(session("g", "x"), "g", "r"), Err(AppError::Forbidden(_))));
    assert!(matches!(iframe_access(session("x", "r"), "g", "r"), Err(AppError::Forbidden(m))
        if m == "Token does not grant access to this role link."));
    assert!(matches!(iframe_access(None, "g", "r"), Err(AppError::UnauthorizedWith(m))
        if m == "Your session expired. Reopen the plugin in the RoleLogic dashboard."));
    let m = manager_access("7".to_string());
    assert_eq!((m.discord_id.as_str(), m.read_only), ("7", false));
}

#[test]
fn tokens_let_their_bearers_in() {
    let token = |guild: &str, role: &str| {
        Ok(VerifiedToken {
            discord_id: "42".to_string(),
            guild_id: guild.to_string(),
            role_id: role.to_string(),
            read_only: false,
        })
    };
    assert_eq!(iframe_entry(token("g", "r"), "g", "r").unwrap().discord_id, "42");
    assert_eq!(
        iframe_entry(token("g", "x"), "g", "r").unwrap_err(),
        "Token does not match this role link."
    );
    assert_eq!(
        iframe_entry(Err(RlTokenError::WrongIssuer), "g", "r").unwrap_err(),
        "Token was not issued by RoleLogic."
    );
    assert_eq!(token_error_message(RlTokenError::WrongAudience), "Token is for a different plugin.");
    assert_eq!(token_error_message(RlTokenError::BadSignature), "Invalid auth token.");
    assert_eq!(token_error_message(RlTokenError::Malformed), "Invalid auth token.");
    assert!(token_error_message(RlTokenError::Expired).starts_with("Your session expired."));
    assert_eq!(link_token(Ok(Some("t".into()))).unwrap(), "t");
    assert_eq!(
        link_token(Ok(None)).unwrap_err(),
        "This role link isn't registered with this plugin yet."
    );
    assert_eq!(link_token(Err("down".into())).unwrap_err(), "Database error: down");
}

#[test]
fn visits_are_shown_what_fits() {
    let q = |t: Option<&str>| RoleConfigPageQuery {
        rl_token: t.map(String::from),
    };
    assert_eq!(entry_token(&q(Some("x"))), Some("x"));
    assert_eq!(entry_token(&q(Some(""))), None);
    assert_eq!(entry_token(&q(None)), None);
    assert!(looks_embedded(Some("IFrame"), None));
    assert!(looks_embedded(Some("frame"), Some("same-origin")));
    assert!(looks_embedded(None, Some("Cross-Site")));
    assert!(!looks_embedded(Some("document"), Some("none")));
    assert!(!looks_embedded(None, None));
    assert_eq!(visit_step(true, false, true), VisitStep::Configuration);
    assert_eq!(visit_step(false, false, true), VisitStep::NoToken);
    assert_eq!(visit_step(false, true, true), VisitStep::SignIn);
    assert_eq!(visit_step(false, false, false), VisitStep::SignIn);
}

#[test]
fn configuration_document_has_all_that_is_needed() {
    let tree = rule(r#"{"groups":[{"conditions":[{"target":"currency","operator":"eq","value":"usd"}]}]}"#);
    let v = role_config_json("https://b", "g", "r", Some(9), &tree, 3, &vec![account()]);
    assert_eq!(text(&v, "guild_id"), "g");
    assert_eq!(text(&v, "verify_url"), "https://b/verify?guild=g");
    assert!(matches!(v.get("rule_tree_version"), Some(JsonValue::Int(3))));
    let config = v.get("config").unwrap();
    assert!(matches!(config.get("stripe_account_ref"), Some(JsonValue::Int(9))));
    assert!(matches!(config.get("groups"), Some(JsonValue::Array(g)) if g.len() == 1));
    let limits = v.get("limits").unwrap();
    assert!(matches!(limits.get("max_groups"), Some(JsonValue::Int(8))));
    assert!(matches!(limits.get("max_conditions_per_group"), Some(JsonValue::Int(12))));
    assert!(matches!(v.get("targets"), Some(JsonValue::Array(t)) if t.len() == 21));
    assert!(matches!(v.get("operators"), Some(JsonValue::Array(o)) if o.len() == 11));
    assert!(matches!(role_link_missing(), AppError::NotFound(_)));
}

#[test]
fn saves_are_refused_with_a_reason() {
    let access = |read_only| RoleConfigAccess {
        discord_id: "1".to_string(),
        read_only,
    };
    assert!(require_writable(&access(false)).is_ok());
    assert!(matches!(require_writable(&access(true)), Err(AppError::Forbidden(m))
        if m == "This configuration is read-only while impersonating a user."));
    assert!(require_connected(None, false).is_ok());
    assert!(require_connected(Some(1), true).is_ok());
    assert_eq!(
        bad(require_connected(Some(1), false)),
        "Selected Stripe account isn't connected to this server."
    );
    let any = rule(r#"{"grant_on_any_relation":true}"#);
    assert!(require_account(Some(1), &any).is_ok());
    assert!(require_account(None, &RuleTree::default()).is_ok());
    assert_eq!(
        bad(require_account(None, &any)),
        "Connect a Stripe account and pick it for this rule before saving — without one it would grant the role to nobody."
    );
    assert!(save_outcome(1, None).is_ok());
    assert!(matches!(save_outcome(0, Some(4)), Err(AppError::StaleVersion)));
    assert!(matches!(save_outcome(0, None), Err(AppError::NotFound(_))));
    assert!(matches!(saved_json(5).get("rule_tree_version"), Some(JsonValue::Int(5))));
}

#[test]
fn previews_count_the_members() {
    let any = rule(r#"{"grant_on_any_relation":true}"#);
    let some = rule(r#"{"groups":[{"conditions":[{"target":"is_trialing","operator":"eq","value":true}]}]}"#);
    assert_eq!(preview_step(None, &any), PreviewStep::Nobody);
    assert_eq!(preview_step(Some(3), &RuleTree::default()), PreviewStep::Nobody);
    assert_eq!(preview_step(Some(3), &any), PreviewStep::Everybody(3));
    assert_eq!(preview_step(Some(3), &some), PreviewStep::Count(3));
    let (sql, binds) = count_query(&some);
    assert_eq!(
        sql,
        "SELECT count(*) FROM stripe_member_facts mf WHERE mf.account_ref = $1 \
         AND mf.discord_id <> ALL($2::text[]) AND (((mf.is_trialing = $3)))"
    );
    assert_eq!(binds.len(), 1);
    let v = preview_json(2, 10);
    assert!(matches!(v.get("matching"), Some(JsonValue::Int(2))));
    assert!(matches!(v.get("linked"), Some(JsonValue::Int(10))));
    assert_eq!(
        preview_unavailable_json().get("available").unwrap().as_bool(),
        Some(false)
    );
}
