//! Who gets and who loses a role.
//!
//! One member's roles are brought up to date from the member's facts; a role
//! link's members are brought up to date by one query over all facts. A lookup
//! that failed never takes a role from anybody: the work ends and is tried
//! again.
use vstd::prelude::*;
use vstd::string::StringExecFns;
use crate::clock::{clock_showed, clock_time, utc_now, Timestamp};
use crate::decode::viewed;
use crate::error::AppError;
use crate::json::{Json, JsonValue};
use crate::models::facts::{Facts, FactsModel};
use crate::models::rule::{RuleModel, RuleTree};
use crate::models::rule_json::{stored_rule, stored_rule_tree};
use crate::numeral::{decimal, decimal_u64};
use crate::services::condition_eval::{evaluate_at, rule_holds};
use crate::services::rule_sql::{
    binds_model, build_rule_where, clause_selects, clause_selects_whom_the_rule_admits,
    rule_binds, rule_sql, same_language, Bind,
};
use crate::text::{str_eq, texts, texts_contain};

verus! {

// ---------------------------------------------------------------------------
// The guilds of a member
// ---------------------------------------------------------------------------

/// The texts that are not in the other list, in order.
pub open spec fn without(all: Seq<Seq<char>>, known: Seq<Seq<char>>) -> Seq<Seq<char>>
    decreases all.len(),
{
    if all.len() == 0 {
        Seq::empty()
    } else if known.contains(all.last()) {
        without(all.drop_last(), known)
    } else {
        without(all.drop_last(), known).push(all.last())
    }
}

/// The guilds of the accounts that a member pays to which the gateway did not
/// name among the member's guilds. Each of them is only used once it is known
/// that the member did not opt out of it.
pub fn extra_guilds(known: &Vec<String>, subscriber_guilds: &Vec<String>) -> (r: Vec<String>)
    ensures
        texts(r@) == without(texts(subscriber_guilds@), texts(known@)),
{
    let ghost all = texts(subscriber_guilds@);
    let mut out: Vec<String> = Vec::new();
    let mut i: usize = 0;
    while i < subscriber_guilds.len()
        invariant
            all == texts(subscriber_guilds@),
            i <= subscriber_guilds.len(),
            texts(out@) =~= without(all.take(i as int), texts(known@)),
        decreases subscriber_guilds.len() - i,
    {
        proof {
            let next = all.take(i + 1);
            assert(next.drop_last() =~= all.take(i as int));
            assert(next.last() == subscriber_guilds@[i as int]@);
        }
        if !texts_contain(known, subscriber_guilds[i].as_str()) {
            out.push(subscriber_guilds[i].clone());
        }
        i = i + 1;
    }
    proof {
        assert(all.take(i as int) =~= all);
    }
    out
}

/// Adds an extra guild, unless the member opted out of it.
pub fn admit_guild(guilds: &mut Vec<String>, guild: String, optouts: &Vec<String>, discord_id: &str)
    ensures
        texts(final(guilds)@) == if texts(optouts@).contains(discord_id@) {
            texts(old(guilds)@)
        } else {
            texts(old(guilds)@).push(guild@)
        },
{
    if !texts_contain(optouts, discord_id) {
        proof {
            assert(texts(guilds@.push(guild)) =~= texts(guilds@).push(guild@));
        }
        guilds.push(guild);
    }
}

// ---------------------------------------------------------------------------
// One member
// ---------------------------------------------------------------------------

/// A role link: the role that a rule over an account's customers grants.
#[derive(Debug)]
pub struct RoleLink {
    pub guild_id: String,
    pub role_id: String,
    pub api_token: String,
    pub account_ref: Option<i64>,
    /// The stored rule.
    pub rule: JsonValue,
}

pub struct RoleLinkModel {
    pub guild_id: Seq<char>,
    pub role_id: Seq<char>,
    pub api_token: Seq<char>,
    pub account_ref: Option<i64>,
    pub rule: Json,
}

impl View for RoleLink {
    type V = RoleLinkModel;

    open spec fn view(&self) -> RoleLinkModel {
        RoleLinkModel {
            guild_id: self.guild_id@,
            role_id: self.role_id@,
            api_token: self.api_token@,
            account_ref: self.account_ref,
            rule: self.rule@,
        }
    }
}

/// A change of a member's roles.
#[derive(Debug)]
pub enum RoleAction {
    /// The role of a guild is given, with the link's token.
    Add(String, String, String),
    /// The role of a guild is taken, with the link's token.
    Remove(String, String, String),
}

pub enum RoleActionModel {
    Add(Seq<char>, Seq<char>, Seq<char>),
    Remove(Seq<char>, Seq<char>, Seq<char>),
}

impl View for RoleAction {
    type V = RoleActionModel;

    open spec fn view(&self) -> RoleActionModel {
        match self {
            RoleAction::Add(g, r, t) => RoleActionModel::Add(g@, r@, t@),
            RoleAction::Remove(g, r, t) => RoleActionModel::Remove(g@, r@, t@),
        }
    }
}

/// A member qualifies for a role link when it is bound to an account, the
/// member has facts there, and the rule admits them.
pub open spec fn link_qualifies(
    link: RoleLinkModel,
    facts: Option<FactsModel>,
    now: Timestamp,
) -> bool {
    &&& link.account_ref is Some
    &&& facts matches Some(f) && rule_holds(stored_rule(link.rule), f, now)
}

/// The role that a link speaks of.
pub open spec fn role_of(link: RoleLinkModel) -> (Seq<char>, Seq<char>) {
    (link.guild_id, link.role_id)
}

/// What one link asks for: the role is given to a member who qualifies and has
/// not got it, and taken from one who has got it and does not qualify.
pub open spec fn link_action(
    link: RoleLinkModel,
    qualifies: bool,
    assigned: bool,
) -> Option<RoleActionModel> {
    if qualifies && !assigned {
        Some(RoleActionModel::Add(link.guild_id, link.role_id, link.api_token))
    } else if !qualifies && assigned {
        Some(RoleActionModel::Remove(link.guild_id, link.role_id, link.api_token))
    } else {
        None
    }
}

/// What the links ask for, in order. `facts` are the member's facts in each
/// link's account, `assigned` the roles that the member has.
pub open spec fn role_plan(
    links: Seq<RoleLinkModel>,
    facts: Seq<Option<FactsModel>>,
    assigned: Seq<(Seq<char>, Seq<char>)>,
    now: Timestamp,
) -> Seq<RoleActionModel>
    decreases links.len(),
{
    if links.len() == 0 {
        Seq::empty()
    } else {
        let before = role_plan(links.drop_last(), facts, assigned, now);
        let i = links.len() - 1;
        match link_action(
            links[i],
            link_qualifies(links[i], facts[i], now),
            assigned.contains(role_of(links[i])),
        ) {
            Some(a) => before.push(a),
            None => before,
        }
    }
}

pub open spec fn links_model(links: Seq<RoleLink>) -> Seq<RoleLinkModel> {
    links.map_values(|l: RoleLink| l@)
}

pub open spec fn facts_model(facts: Seq<Option<Facts>>) -> Seq<Option<FactsModel>> {
    facts.map_values(|f: Option<Facts>| viewed(f))
}

pub open spec fn pairs_model(pairs: Seq<(String, String)>) -> Seq<(Seq<char>, Seq<char>)> {
    pairs.map_values(|p: (String, String)| (p.0@, p.1@))
}

pub open spec fn actions_model(actions: Seq<RoleAction>) -> Seq<RoleActionModel> {
    actions.map_values(|a: RoleAction| a@)
}

fn has_role(assigned: &Vec<(String, String)>, guild_id: &str, role_id: &str) -> (r: bool)
    ensures
        r == pairs_model(assigned@).contains((guild_id@, role_id@)),
{
    let mut i: usize = 0;
    while i < assigned.len()
        invariant
            i <= assigned.len(),
            forall|k: int|
                0 <= k < i ==> #[trigger] pairs_model(assigned@)[k] != (guild_id@, role_id@),
        decreases assigned.len() - i,
    {
        assert(pairs_model(assigned@)[i as int] == (assigned@[i as int].0@, assigned@[i as int].1@));
        if str_eq(assigned[i].0.as_str(), guild_id) && str_eq(assigned[i].1.as_str(), role_id) {
            return true;
        }
        i = i + 1;
    }
    false
}

/// Whether a member qualifies for a role link at the given time.
pub fn qualifies_at(link: &RoleLink, facts: &Option<Facts>, now: Timestamp) -> (r: bool)
    ensures
        r == link_qualifies(link@, viewed(*facts), now),
{
    match link.account_ref {
        Some(_) => match facts {
            Some(f) => evaluate_at(&stored_rule_tree(&link.rule), f, now),
            None => false,
        },
        None => false,
    }
}

/// Plans the changes of a member's roles at the given time.
pub fn plan_roles_at(
    links: &Vec<RoleLink>,
    facts: &Vec<Option<Facts>>,
    assigned: &Vec<(String, String)>,
    now: Timestamp,
) -> (r: Vec<RoleAction>)
    requires
        facts@.len() == links@.len(),
    ensures
        actions_model(r@) == role_plan(
            links_model(links@),
            facts_model(facts@),
            pairs_model(assigned@),
            now,
        ),
{
    let ghost ls = links_model(links@);
    let ghost fs = facts_model(facts@);
    let ghost ps = pairs_model(assigned@);
    let mut out: Vec<RoleAction> = Vec::new();
    let mut i: usize = 0;
    while i < links.len()
        invariant
            facts@.len() == links@.len(),
            ls == links_model(links@),
            fs == facts_model(facts@),
            ps == pairs_model(assigned@),
            i <= links.len(),
            actions_model(out@) =~= role_plan(ls.take(i as int), fs, ps, now),
        decreases links.len() - i,
    {
        let link = &links[i];
        proof {
            let next = ls.take(i + 1);
            assert(next.drop_last() =~= ls.take(i as int));
            assert(next[i as int] == link@);
            assert(fs[i as int] == viewed(facts@[i as int]));
        }
        let qualifies = qualifies_at(link, &facts[i], now);
        let holds = has_role(assigned, link.guild_id.as_str(), link.role_id.as_str());
        if qualifies && !holds {
            let a = RoleAction::Add(
                link.guild_id.clone(),
                link.role_id.clone(),
                link.api_token.clone(),
            );
            proof {
                assert(actions_model(out@.push(a)) =~= actions_model(out@).push(a@));
            }
            out.push(a);
        } else if !qualifies && holds {
            let a = RoleAction::Remove(
                link.guild_id.clone(),
                link.role_id.clone(),
                link.api_token.clone(),
            );
            proof {
                assert(actions_model(out@.push(a)) =~= actions_model(out@).push(a@));
            }
            out.push(a);
        }
        i = i + 1;
    }
    proof {
        assert(ls.take(i as int) =~= ls);
    }
    out
}

/// Plans the changes of a member's roles now: at a point in time that the clock
/// showed.
pub fn plan_roles(
    links: &Vec<RoleLink>,
    facts: &Vec<Option<Facts>>,
    assigned: &Vec<(String, String)>,
) -> (r: Vec<RoleAction>)
    requires
        facts@.len() == links@.len(),
    ensures
        exists|now: Timestamp|
            clock_showed(now) && clock_time(now) && actions_model(r@) == #[trigger] role_plan(
                links_model(links@),
                facts_model(facts@),
                pairs_model(assigned@),
                now,
            ),
{
    let now = utc_now();
    plan_roles_at(links, facts, assigned, now)
}

/// The roles that a member has after a list of changes.
pub open spec fn after_actions(
    roles: Set<(Seq<char>, Seq<char>)>,
    actions: Seq<RoleActionModel>,
) -> Set<(Seq<char>, Seq<char>)>
    decreases actions.len(),
{
    if actions.len() == 0 {
        roles
    } else {
        match actions.last() {
            RoleActionModel::Add(g, r, _) => after_actions(roles, actions.drop_last()).insert(
                (g, r),
            ),
            RoleActionModel::Remove(g, r, _) => after_actions(
                roles,
                actions.drop_last(),
            ).remove((g, r)),
        }
    }
}

/// No two links speak of one role.
pub open spec fn roles_distinct(links: Seq<RoleLinkModel>) -> bool {
    forall|i: int, j: int|
        0 <= i < j < links.len() ==> role_of(#[trigger] links[i]) != role_of(#[trigger] links[j])
}

/// Carried out, a plan leaves the member with the role of each link that they
/// qualify for and of no other, and changes no role without a link.
pub proof fn plan_gives_what_is_earned(
    links: Seq<RoleLinkModel>,
    facts: Seq<Option<FactsModel>>,
    assigned: Seq<(Seq<char>, Seq<char>)>,
    now: Timestamp,
)
    requires
        facts.len() >= links.len(),
        roles_distinct(links),
    ensures
        forall|i: int|
            0 <= i < links.len() ==> (after_actions(
                assigned.to_set(),
                role_plan(links, facts, assigned, now),
            ).contains(role_of(#[trigger] links[i])) <==> link_qualifies(links[i], facts[i], now)),
        forall|role: (Seq<char>, Seq<char>)|
            (forall|i: int| 0 <= i < links.len() ==> role_of(#[trigger] links[i]) != role) ==> (
            #[trigger] after_actions(
                assigned.to_set(),
                role_plan(links, facts, assigned, now),
            ).contains(role) <==> assigned.contains(role)),
    decreases links.len(),
{
    let plan = role_plan(links, facts, assigned, now);
    if links.len() == 0 {
    } else {
        let before = links.drop_last();
        let n = links.len() - 1;
        assert forall|i: int, j: int| 0 <= i < j < before.len() implies role_of(
            #[trigger] before[i],
        ) != role_of(#[trigger] before[j]) by {
            assert(before[i] == links[i] && before[j] == links[j]);
        }
        plan_gives_what_is_earned(before, facts, assigned, now);
        let plan0 = role_plan(before, facts, assigned, now);
        let roles0 = after_actions(assigned.to_set(), plan0);
        let roles = after_actions(assigned.to_set(), plan);
        let role = role_of(links[n]);
        assert forall|i: int| 0 <= i < before.len() implies role_of(#[trigger] before[i])
            != role by {
            assert(before[i] == links[i]);
        }
        assert(roles0.contains(role) <==> assigned.contains(role));
        let action = link_action(
            links[n],
            link_qualifies(links[n], facts[n], now),
            assigned.contains(role),
        );
        match action {
            Some(a) => {
                assert(plan == plan0.push(a));
                assert(plan.drop_last() =~= plan0);
                assert(plan.last() == a);
            },
            None => {
                assert(plan == plan0);
            },
        }
        assert forall|i: int| 0 <= i < links.len() implies (roles.contains(
            role_of(#[trigger] links[i]),
        ) <==> link_qualifies(links[i], facts[i], now)) by {
            if i < n {
                assert(before[i] == links[i]);
                assert(role_of(links[i]) != role);
            }
        }
        assert forall|other: (Seq<char>, Seq<char>)|
            (forall|i: int| 0 <= i < links.len() ==> role_of(#[trigger] links[i]) != other) implies (
        #[trigger] roles.contains(other) <==> assigned.contains(other)) by {
            assert(role_of(links[n]) != other);
            assert forall|i: int| 0 <= i < before.len() implies role_of(#[trigger] before[i])
                != other by {
                assert(before[i] == links[i]);
            }
            assert(roles0.contains(other) <==> assigned.contains(other));
        }
    }
}

/// A link without an account, or with a rule that was never configured or cannot
/// be read, grants its role to nobody.
pub proof fn unbound_link_grants_nobody(
    link: RoleLinkModel,
    facts: Option<FactsModel>,
    now: Timestamp,
)
    requires
        link.account_ref is None || (!stored_rule(link.rule).grant_on_any_relation && stored_rule(
            link.rule,
        ).groups.len() == 0),
    ensures
        !link_qualifies(link, facts, now),
{
}

// ---------------------------------------------------------------------------
// After the role service has answered
// ---------------------------------------------------------------------------

/// What follows a change that was asked of the role service.
#[derive(Debug, Clone, Copy, PartialEq, Eq, Structural)]
pub enum FollowUp {
    /// The role is stored as assigned.
    StoreAssignment,
    /// The role is no longer stored as assigned.
    DropAssignment,
    /// The role link does not exist any more: it is deleted here too.
    DropLink,
    /// Nothing: the change was not made.
    Nothing,
}

/// Decides what follows a change. Only one that was made is stored, so a failure
/// never counts as a role given or taken.
pub fn follow_up(action: &RoleAction, outcome: &Result<(), AppError>) -> (r: FollowUp)
    ensures
        r == match *outcome {
            Ok(_) => if action is Add {
                FollowUp::StoreAssignment
            } else {
                FollowUp::DropAssignment
            },
            Err(AppError::RoleLinkNotFound) => FollowUp::DropLink,
            Err(_) => FollowUp::Nothing,
        },
{
    match outcome {
        Ok(_) => match action {
            RoleAction::Add(_, _, _) => FollowUp::StoreAssignment,
            RoleAction::Remove(_, _, _) => FollowUp::DropAssignment,
        },
        Err(e) => match e {
            AppError::RoleLinkNotFound => FollowUp::DropLink,
            _ => FollowUp::Nothing,
        },
    }
}

// ---------------------------------------------------------------------------
// One role link
// ---------------------------------------------------------------------------

/// A role link is to be emptied: it has no account, or a rule that admits
/// nobody.
pub open spec fn grants_nobody(account_ref: Option<i64>, rule: RuleModel) -> bool {
    account_ref is None || (!rule.grant_on_any_relation && rule.groups.len() == 0)
}

/// The account of a role link whose members are to be found by its rule; none
/// where it is to be emptied.
pub fn account_to_evaluate(account_ref: Option<i64>, tree: &RuleTree) -> (r: Option<i64>)
    ensures
        grants_nobody(account_ref, tree@) ==> r is None,
        !grants_nobody(account_ref, tree@) ==> r == account_ref && r is Some,
{
    if !tree.grant_on_any_relation && tree.groups.len() == 0 {
        None
    } else {
        account_ref
    }
}

/// What the role service says of a role link.
#[derive(Debug)]
pub enum LimitStep {
    /// It takes this many users.
    Limit(i64),
    /// It does not exist any more: it is deleted here too.
    DropLink,
    /// It did not say: nobody loses the role, and the work is tried again.
    Fail(AppError),
}

/// Decides how many users a role link takes, given how many it has and takes
/// according to the role service.
pub fn user_limit(info: Result<(i64, i64), AppError>) -> (r: LimitStep)
    ensures
        match info {
            Ok((_, limit)) => r == LimitStep::Limit(limit),
            Err(AppError::RoleLinkNotFound) => r is DropLink,
            Err(e) => r == LimitStep::Fail(e),
        },
{
    match info {
        Ok((_, limit)) => LimitStep::Limit(limit),
        Err(e) => match e {
            AppError::RoleLinkNotFound => LimitStep::DropLink,
            _ => LimitStep::Fail(e),
        },
    }
}

/// The query for the members that a rule admits. Its parameters are the account,
/// the members who opted out, the values of the rule's clause and the limit.
pub open spec fn members_sql(rule: RuleModel) -> Seq<char> {
    "SELECT mf.discord_id FROM stripe_member_facts mf WHERE "@
        + "mf.account_ref = $1 AND mf.discord_id <> ALL($2::text[]) AND ("@ + rule_sql(rule, 2) + ") ORDER BY mf.discord_id LIMIT $"@ + decimal(
        3 + rule_binds(rule).len(),
    )
}

/// Writes the query for the members that a rule admits, and the values of its
/// clause.
pub fn members_query(tree: &RuleTree) -> (r: (String, Vec<Bind>))
    requires
        3 + rule_binds(tree@).len() <= usize::MAX,
    ensures
        r.0@ == members_sql(tree@),
        binds_model(r.1@) == rule_binds(tree@),
{
    let (clause, binds) = build_rule_where(tree, 2);
    proof {
        assert(binds_model(binds@).len() == binds@.len());
    }
    let limit_index: usize = 2 + binds.len() + 1;
    let mut out = "SELECT mf.discord_id FROM stripe_member_facts mf WHERE ".to_owned();
    out.append("mf.account_ref = $1 AND mf.discord_id <> ALL($2::text[]) AND (");
    out.append(clause.as_str());
    out.append(") ORDER BY mf.discord_id LIMIT $");
    out.append(decimal_u64(limit_index as u64).as_str());
    (out, binds)
}

/// Whether the members of a role link are to be sent to the role service: both
/// lists are in order, and the same list is not sent again.
pub fn needs_upload(current: &Vec<String>, qualifying: &Vec<String>) -> (r: bool)
    ensures
        r == (texts(current@) != texts(qualifying@)),
{
    assert(texts(current@).len() == current@.len());
    assert(texts(qualifying@).len() == qualifying@.len());
    if current.len() != qualifying.len() {
        return true;
    }
    let mut i: usize = 0;
    while i < current.len()
        invariant
            current.len() == qualifying.len(),
            i <= current.len(),
            forall|k: int| 0 <= k < i ==> texts(current@)[k] == texts(qualifying@)[k],
        decreases current.len() - i,
    {
        if !str_eq(current[i].as_str(), qualifying[i].as_str()) {
            assert(texts(current@)[i as int] != texts(qualifying@)[i as int]);
            return true;
        }
        i = i + 1;
    }
    assert(texts(current@) =~= texts(qualifying@));
    false
}

/// What follows when the members of a role link were sent.
#[derive(Debug)]
pub enum UploadStep {
    /// They are stored as assigned in place of those before.
    Store,
    /// The role link does not exist any more: it is deleted here too.
    DropLink,
    /// They were not taken: nothing is stored and the work is tried again.
    Fail(AppError),
}

/// Decides what follows when the members of a role link were sent.
pub fn after_upload(outcome: Result<(), AppError>) -> (r: UploadStep)
    ensures
        match outcome {
            Ok(_) => r is Store,
            Err(AppError::RoleLinkNotFound) => r is DropLink,
            Err(e) => r == UploadStep::Fail(e),
        },
{
    match outcome {
        Ok(_) => UploadStep::Store,
        Err(e) => match e {
            AppError::RoleLinkNotFound => UploadStep::DropLink,
            _ => UploadStep::Fail(e),
        },
    }
}

/// A member's role comes out the same whichever way it is decided: the query for
/// a role link's members selects a member with facts exactly when the member
/// qualifies for the link, and a link that is emptied is one that nobody
/// qualifies for.
pub proof fn both_ways_agree(link: RoleLinkModel, f: FactsModel, now: Timestamp)
    requires
        !stored_rule(link.rule).grant_on_any_relation ==> forall|i: int, k: int|
            0 <= i < stored_rule(link.rule).groups.len() && 0 <= k < stored_rule(
                link.rule,
            ).groups[i].len() ==> same_language(#[trigger] stored_rule(link.rule).groups[i][k]),
    ensures
        !grants_nobody(link.account_ref, stored_rule(link.rule)) ==> (clause_selects(
            stored_rule(link.rule),
            f,
            now,
        ) <==> link_qualifies(link, Some(f), now)),
        grants_nobody(link.account_ref, stored_rule(link.rule)) ==> !link_qualifies(
            link,
            Some(f),
            now,
        ),
{
    clause_selects_whom_the_rule_admits(stored_rule(link.rule), f, now);
}

} // verus!
