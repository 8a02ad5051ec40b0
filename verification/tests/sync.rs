use stripe_subscriber_role::error::AppError;
use stripe_subscriber_role::json::{parse_json, JsonValue};
use stripe_subscriber_role::models::facts::Facts;
use stripe_subscriber_role::models::rule::RuleTree;
use stripe_subscriber_role::models::rule_json::stored_rule_tree;
use stripe_subscriber_role::services::rule_sql::Bind;
use stripe_subscriber_role::services::sync::{
    account_to_evaluate, admit_guild, after_upload, extra_guilds, follow_up, members_query,
    needs_upload, plan_roles, user_limit, FollowUp, LimitStep, RoleAction, RoleLink, UploadStep,
};

fn texts(items: &[&str]) -> Vec<String> {
    items.iter().map(|s| s.to_string()).collect()
}

fn rule(json: &str) -> JsonValue {
    parse_json(json.as_bytes()).unwrap()
}

fn link(guild: &str, role: &str, account: Option<i64>, json: &str) -> RoleLink {
    RoleLink {
        guild_id: guild.to_string(),
        role_id: role.to_string(),
        api_token: format!("token {role}"),
        account_ref: account,
        rule: rule(json),
    }
}

const ANY: &str = r#"{"grant_on_any_relation":true}"#;
const ACTIVE: &str = r#"{"groups":[{"conditions":[{"target":"has_active_subscription","operator":"eq","value":true}]}]}"#;

fn names(actions: &[RoleAction]) -> Vec<String> {
    actions
        .iter()
        .map(|a| match a {
            RoleAction::Add(g, r, t) => format!("+{g}/{r}/{t}"),
            RoleAction::Remove(g, r, t) => format!("-{g}/{r}/{t}"),
        })
        .collect()
}

#[test]
fn subscriber_guilds_are_added_unless_opted_out() {
    let known = texts(&["a", "b"]);
    let extra = extra_guilds(&known, &texts(&["b", "c", "a", "d"]));
    assert_eq!(extra, texts(&["c", "d"]));
    let mut guilds = known;
    admit_guild(&mut guilds, "c".to_string(), &texts(&["1", "2"]), "2");
    admit_guild(&mut guilds, "d".to_string(), &texts(&["1"]), "2");
    assert_eq!(guilds, texts(&["a", "b", "d"]));
}

#[test]
fn roles_are_given_and_taken_by_merit() {
    let mut member = Facts::default();
    member.has_active_subscription = true;
    let links = vec![
        link("g", "active", Some(1), ACTIVE),
        link("g", "any", Some(1), ANY),
        link("g", "unbound", None, ANY),
        link("g", "stranger", Some(2), ANY),
        link("g", "unreadable", Some(1), r#"{"groups":7}"#),
        link("h", "kept", Some(1), ACTIVE),
    ];
    let facts = vec![
        Some(member),
        Some(Facts::default()),
        Some(Facts::default()),
        None,
        Some(Facts::default()),
        Some({
            let mut f = Facts::default();
            f.has_active_subscription = true;
            f
        }),
    ];
    let assigned: Vec<(String, String)> = ["unbound", "stranger", "unreadable"]
        .iter()
        .map(|r| ("g".to_string(), r.to_string()))
        .chain([("h".to_string(), "kept".to_string())])
        .collect();
    let plan = plan_roles(&links, &facts, &assigned);
    assert_eq!(
        names(&plan),
        vec![
            "+g/active/token active",
            "+g/any/token any",
            "-g/unbound/token unbound",
            "-g/stranger/token stranger",
            "-g/unreadable/token unreadable",
        ]
    );
}

#[test]
fn only_changes_that_were_made_are_stored() {
    let add = RoleAction::Add("g".into(), "r".into(), "t".into());
    let remove = RoleAction::Remove("g".into(), "r".into(), "t".into());
    assert_eq!(follow_up(&add, &Ok(())), FollowUp::StoreAssignment);
    assert_eq!(follow_up(&remove, &Ok(())), FollowUp::DropAssignment);
    assert_eq!(follow_up(&add, &Err(AppError::RoleLinkNotFound)), FollowUp::DropLink);
    assert_eq!(follow_up(&remove, &Err(AppError::RoleLinkNotFound)), FollowUp::DropLink);
    assert_eq!(follow_up(&add, &Err(AppError::UserLimitReached(5))), FollowUp::Nothing);
    assert_eq!(
        follow_up(&remove, &Err(AppError::Internal("x".into()))),
        FollowUp::Nothing
    );
}

#[test]
fn links_without_effect_are_emptied() {
    let any = stored_rule_tree(&rule(ANY));
    assert_eq!(account_to_evaluate(Some(4), &any), Some(4));
    assert_eq!(account_to_evaluate(None, &any), None);
    assert_eq!(account_to_evaluate(Some(4), &RuleTree::default()), None);
    assert_eq!(account_to_evaluate(Some(4), &stored_rule_tree(&rule(ACTIVE))), Some(4));
}

#[test]
fn a_limit_that_is_not_known_stops_the_work() {
    assert!(matches!(user_limit(Ok((3, 250))), LimitStep::Limit(250)));
    assert!(matches!(
        user_limit(Err(AppError::RoleLinkNotFound)),
        LimitStep::DropLink
    ));
    assert!(matches!(
        user_limit(Err(AppError::Internal("down".into()))),
        LimitStep::Fail(AppError::Internal(m)) if m == "down"
    ));
}

#[test]
fn members_are_found_by_one_query() {
    let (sql, binds) = members_query(&stored_rule_tree(&rule(ACTIVE)));
    assert_eq!(
        sql,
        "SELECT mf.discord_id FROM stripe_member_facts mf WHERE mf.account_ref = $1 \
         AND mf.discord_id <> ALL($2::text[]) AND (((mf.has_active_subscription = $3))) \
         ORDER BY mf.discord_id LIMIT $4"
    );
    assert!(matches!(binds[0], Bind::Bool(true)));
    assert_eq!(binds.len(), 1);
}

#[test]
fn the_same_members_are_not_sent_again() {
    assert!(!needs_upload(&texts(&["1", "2"]), &texts(&["1", "2"])));
    assert!(!needs_upload(&vec![], &vec![]));
    assert!(needs_upload(&texts(&["1"]), &texts(&["1", "2"])));
    assert!(needs_upload(&texts(&["1", "3"]), &texts(&["1", "2"])));
}

#[test]
fn failed_uploads_are_tried_again() {
    assert!(matches!(after_upload(Ok(())), UploadStep::Store));
    assert!(matches!(
        after_upload(Err(AppError::RoleLinkNotFound)),
        UploadStep::DropLink
    ));
    assert!(matches!(
        after_upload(Err(AppError::Internal("down".into()))),
        UploadStep::Fail(AppError::Internal(m)) if m == "down"
    ));
}
