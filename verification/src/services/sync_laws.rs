//! Who gets and who loses a role, and what follows.
//!
//! Each law speaks of what a function was given and of what it gave.
use vstd::prelude::*;
use crate::clock::{clock_showed, Timestamp};
use crate::error::AppError;
use crate::models::facts::Facts;
use crate::models::rule::RuleTree;
use crate::models::rule_json::stored_rule;
use crate::services::condition_eval::rule_holds;
use crate::services::sync::{
    account_to_evaluate, actions_model, after_upload, extra_guilds, facts_model, follow_up,
    link_action, link_qualifies, links_model, needs_upload, pairs_model, plan_roles,
    plan_roles_at, role_of, role_plan, user_limit, without, FollowUp, LimitStep, RoleAction,
    RoleActionModel, RoleLink, RoleLinkModel, UploadStep,
};
use crate::text::texts;

verus! {

// ---------------------------------------------------------------------------
// Plans
// ---------------------------------------------------------------------------

/// The member has earned the role of the link: it is bound to an account, the
/// member has facts there, and the link's rule admits them.
pub open spec fn has_earned(link: RoleLink, facts: Option<Facts>, now: Timestamp) -> bool {
    &&& link.account_ref is Some
    &&& facts is Some
    &&& rule_holds(stored_rule(link.rule@), facts->0@, now)
}

/// The member has the role of the link.
pub open spec fn has_it(assigned: Vec<(String, String)>, link: RoleLink) -> bool {
    exists|k: int|
        0 <= k < assigned@.len() && (#[trigger] assigned@[k]).0@ == link.guild_id@
            && assigned@[k].1@ == link.role_id@
}

/// The change gives the role of the link.
pub open spec fn gives(a: RoleAction, link: RoleLink) -> bool {
    a matches RoleAction::Add(g, r, t) && g@ == link.guild_id@ && r@ == link.role_id@ && t@
        == link.api_token@
}

/// The change takes the role of the link.
pub open spec fn takes(a: RoleAction, link: RoleLink) -> bool {
    a matches RoleAction::Remove(g, r, t) && g@ == link.guild_id@ && r@ == link.role_id@ && t@
        == link.api_token@
}

/// Each change gives a role that was earned and is not there, or takes one that
/// is there and was not earned.
pub open spec fn is_due(
    a: RoleAction,
    links: Vec<RoleLink>,
    facts: Vec<Option<Facts>>,
    assigned: Vec<(String, String)>,
    now: Timestamp,
) -> bool {
    exists|i: int|
        {
            &&& 0 <= i < links@.len()
            &&& (gives(a, #[trigger] links@[i]) && has_earned(links@[i], facts@[i], now) && !has_it(
                assigned,
                links@[i],
            )) || (takes(a, links@[i]) && !has_earned(links@[i], facts@[i], now) && has_it(
                assigned,
                links@[i],
            ))
        }
}

/// Every role that is to be given or taken is in the plan.
pub open spec fn is_planned(
    plan: Vec<RoleAction>,
    link: RoleLink,
    facts: Option<Facts>,
    assigned: Vec<(String, String)>,
    now: Timestamp,
) -> bool {
    &&& has_earned(link, facts, now) && !has_it(assigned, link) ==> exists|k: int|
        0 <= k < plan@.len() && gives(#[trigger] plan@[k], link)
    &&& !has_earned(link, facts, now) && has_it(assigned, link) ==> exists|k: int|
        0 <= k < plan@.len() && takes(#[trigger] plan@[k], link)
}

/// The plan changes what is to be changed at the time, and nothing else.
pub open spec fn is_right_plan(
    plan: Vec<RoleAction>,
    links: Vec<RoleLink>,
    facts: Vec<Option<Facts>>,
    assigned: Vec<(String, String)>,
    now: Timestamp,
) -> bool {
    &&& forall|k: int|
        0 <= k < plan@.len() ==> is_due(#[trigger] plan@[k], links, facts, assigned, now)
    &&& forall|i: int|
        0 <= i < links@.len() ==> is_planned(
            plan,
            #[trigger] links@[i],
            facts@[i],
            assigned,
            now,
        )
}

/// One of the links asks for the change.
spec fn asked_for(
    a: RoleActionModel,
    links: Seq<RoleLinkModel>,
    facts: Seq<Option<crate::models::facts::FactsModel>>,
    assigned: Seq<(Seq<char>, Seq<char>)>,
    now: Timestamp,
    i: int,
) -> bool {
    &&& 0 <= i < links.len()
    &&& link_action(
        links[i],
        link_qualifies(links[i], facts[i], now),
        assigned.contains(role_of(links[i])),
    ) == Some(a)
}

spec fn is_asked(
    a: RoleActionModel,
    links: Seq<RoleLinkModel>,
    facts: Seq<Option<crate::models::facts::FactsModel>>,
    assigned: Seq<(Seq<char>, Seq<char>)>,
    now: Timestamp,
) -> bool {
    exists|i: int| #[trigger] asked_for(a, links, facts, assigned, now, i)
}

proof fn lemma_plan(
    links: Seq<RoleLinkModel>,
    facts: Seq<Option<crate::models::facts::FactsModel>>,
    assigned: Seq<(Seq<char>, Seq<char>)>,
    now: Timestamp,
)
    ensures
        forall|k: int|
            0 <= k < role_plan(links, facts, assigned, now).len() ==> is_asked(
                #[trigger] role_plan(links, facts, assigned, now)[k],
                links,
                facts,
                assigned,
                now,
            ),
        forall|a: RoleActionModel, i: int| #[trigger]
            asked_for(a, links, facts, assigned, now, i) ==> role_plan(
                links,
                facts,
                assigned,
                now,
            ).contains(a),
    decreases links.len(),
{
    let plan = role_plan(links, facts, assigned, now);
    if links.len() > 0 {
        let before = links.drop_last();
        let plan0 = role_plan(before, facts, assigned, now);
        lemma_plan(before, facts, assigned, now);
        let n = links.len() - 1;
        assert forall|i: int| 0 <= i < before.len() implies before[i] == #[trigger] links[i] by {}
        assert forall|k: int| 0 <= k < plan.len() implies is_asked(
            #[trigger] plan[k],
            links,
            facts,
            assigned,
            now,
        ) by {
            if k < plan0.len() {
                assert(plan[k] == plan0[k]);
                assert(is_asked(plan0[k], before, facts, assigned, now));
                let i = choose|i: int| asked_for(plan0[k], before, facts, assigned, now, i);
                assert(asked_for(plan[k], links, facts, assigned, now, i));
            } else {
                assert(asked_for(plan[k], links, facts, assigned, now, n));
            }
        }
        assert forall|a: RoleActionModel, i: int| #[trigger]
            asked_for(a, links, facts, assigned, now, i) implies plan.contains(a) by {
            if i < n {
                assert(asked_for(a, before, facts, assigned, now, i));
                let k = choose|k: int| 0 <= k < plan0.len() && plan0[k] == a;
                assert(plan[k] == a);
            } else {
                assert(plan[plan.len() - 1] == a);
            }
        }
    }
}

proof fn lemma_right_plan(
    plan: Vec<RoleAction>,
    links: Vec<RoleLink>,
    facts: Vec<Option<Facts>>,
    assigned: Vec<(String, String)>,
    now: Timestamp,
)
    requires
        facts@.len() == links@.len(),
        actions_model(plan@) == role_plan(
            links_model(links@),
            facts_model(facts@),
            pairs_model(assigned@),
            now,
        ),
    ensures
        is_right_plan(plan, links, facts, assigned, now),
{
    let ls = links_model(links@);
    let fs = facts_model(facts@);
    let pairs = pairs_model(assigned@);
    let actions = actions_model(plan@);
    lemma_plan(ls, fs, pairs, now);
    assert forall|i: int| 0 <= i < links@.len() implies (ls[i] == (#[trigger] links@[i])@
        && link_qualifies(ls[i], fs[i], now) == has_earned(links@[i], facts@[i], now)
        && pairs.contains(role_of(ls[i])) == has_it(assigned, links@[i])) by {
        let role = role_of(ls[i]);
        if pairs.contains(role) {
            let k = choose|k: int| 0 <= k < pairs.len() && pairs[k] == role;
            assert(assigned@[k].0@ == links@[i].guild_id@);
        }
        if has_it(assigned, links@[i]) {
            let k = choose|k: int|
                0 <= k < assigned@.len() && (#[trigger] assigned@[k]).0@ == links@[i].guild_id@
                    && assigned@[k].1@ == links@[i].role_id@;
            assert(pairs[k] == role);
        }
    }
    assert forall|k: int| 0 <= k < plan@.len() implies is_due(
        #[trigger] plan@[k],
        links,
        facts,
        assigned,
        now,
    ) by {
        assert(actions[k] == plan@[k]@);
        assert(is_asked(actions[k], ls, fs, pairs, now));
        let i = choose|i: int| asked_for(actions[k], ls, fs, pairs, now, i);
        assert(asked_for(actions[k], ls, fs, pairs, now, i));
        assert(ls[i] == links@[i]@);
    }
    assert forall|i: int| 0 <= i < links@.len() implies is_planned(
        plan,
        #[trigger] links@[i],
        facts@[i],
        assigned,
        now,
    ) by {
        let link = links@[i];
        assert(ls[i] == link@);
        let add = RoleActionModel::Add(link.guild_id@, link.role_id@, link.api_token@);
        let remove = RoleActionModel::Remove(link.guild_id@, link.role_id@, link.api_token@);
        if has_earned(link, facts@[i], now) && !has_it(assigned, link) {
            assert(asked_for(add, ls, fs, pairs, now, i));
            let k = choose|k: int| 0 <= k < actions.len() && actions[k] == add;
            assert(gives(plan@[k], link));
        }
        if !has_earned(link, facts@[i], now) && has_it(assigned, link) {
            assert(asked_for(remove, ls, fs, pairs, now, i));
            let k = choose|k: int| 0 <= k < actions.len() && actions[k] == remove;
            assert(takes(plan@[k], link));
        }
    }
}

/// A plan for a given time is the right one.
pub proof fn plan_changes_what_is_due(
    links: Vec<RoleLink>,
    facts: Vec<Option<Facts>>,
    assigned: Vec<(String, String)>,
    now: Timestamp,
    plan: Vec<RoleAction>,
)
    requires
        facts@.len() == links@.len(),
        call_ensures(plan_roles_at, (&links, &facts, &assigned, now), plan),
    ensures
        is_right_plan(plan, links, facts, assigned, now),
{
    lemma_right_plan(plan, links, facts, assigned, now);
}

/// A plan for now is the right one for a point in time that the clock showed.
pub proof fn plan_is_made_for_now(
    links: Vec<RoleLink>,
    facts: Vec<Option<Facts>>,
    assigned: Vec<(String, String)>,
    plan: Vec<RoleAction>,
)
    requires
        facts@.len() == links@.len(),
        call_ensures(plan_roles, (&links, &facts, &assigned), plan),
    ensures
        exists|now: Timestamp| #[trigger]
            clock_showed(now) && is_right_plan(plan, links, facts, assigned, now),
{
    let now = choose|now: Timestamp|
        clock_showed(now) && actions_model(plan@) == #[trigger] role_plan(
            links_model(links@),
            facts_model(facts@),
            pairs_model(assigned@),
            now,
        );
    lemma_right_plan(plan, links, facts, assigned, now);
    assert(clock_showed(now));
}

// ---------------------------------------------------------------------------
// What follows
// ---------------------------------------------------------------------------

/// A role that was given is stored, one that was taken is no longer, and a change
/// that failed is not. Only a link that does not exist is dropped.
pub proof fn only_what_was_done_is_stored(
    action: RoleAction,
    outcome: Result<(), AppError>,
    r: FollowUp,
)
    requires
        call_ensures(follow_up, (&action, &outcome), r),
    ensures
        r is StoreAssignment <==> outcome is Ok && action is Add,
        r is DropAssignment <==> outcome is Ok && action is Remove,
        r is DropLink <==> outcome == Err::<(), AppError>(AppError::RoleLinkNotFound),
{
}

/// Members are stored only when they were taken, a link is dropped only when it
/// does not exist, and any other failure is handed on.
pub proof fn only_a_taken_upload_is_stored(outcome: Result<(), AppError>, r: UploadStep)
    requires
        call_ensures(after_upload, (outcome,), r),
    ensures
        r is Store <==> outcome is Ok,
        r is DropLink <==> outcome == Err::<(), AppError>(AppError::RoleLinkNotFound),
        r matches UploadStep::Fail(e) ==> outcome == Err::<(), AppError>(e),
{
}

/// The limit is the one that the role service gave, a link is dropped only when
/// it does not exist, and any other failure is handed on.
pub proof fn limit_is_the_services(info: Result<(i64, i64), AppError>, r: LimitStep)
    requires
        call_ensures(user_limit, (info,), r),
    ensures
        info matches Ok((used, limit)) ==> r == LimitStep::Limit(limit),
        r is Limit <==> info is Ok,
        r is DropLink <==> info == Err::<(i64, i64), AppError>(AppError::RoleLinkNotFound),
        r matches LimitStep::Fail(e) ==> info == Err::<(i64, i64), AppError>(e),
{
}

/// A link is evaluated in its account, unless its rule admits nobody.
pub proof fn link_is_evaluated_in_its_account(
    account: Option<i64>,
    tree: RuleTree,
    r: Option<i64>,
)
    requires
        call_ensures(account_to_evaluate, (account, &tree), r),
    ensures
        r is Some ==> r == account,
        tree.grant_on_any_relation ==> r == account,
        tree.groups@.len() > 0 ==> r == account,
        !tree.grant_on_any_relation && tree.groups@.len() == 0 ==> r is None,
{
    assert(tree@.groups.len() == tree.groups@.len());
}

/// Members are sent exactly where some place of the two lists differs.
pub proof fn changed_members_are_sent(current: Vec<String>, qualifying: Vec<String>, r: bool)
    requires
        call_ensures(needs_upload, (&current, &qualifying), r),
    ensures
        !r <==> current@.len() == qualifying@.len() && forall|i: int|
            0 <= i < current@.len() ==> (#[trigger] current@[i])@ == qualifying@[i]@,
{
    let a = texts(current@);
    let b = texts(qualifying@);
    assert(a.len() == current@.len() && b.len() == qualifying@.len());
    if !r {
        assert forall|i: int| 0 <= i < current@.len() implies (#[trigger] current@[i])@
            == qualifying@[i]@ by {
            assert(a[i] == b[i]);
        }
    }
    if current@.len() == qualifying@.len() && forall|i: int|
        0 <= i < current@.len() ==> (#[trigger] current@[i])@ == qualifying@[i]@ {
        assert forall|i: int| 0 <= i < a.len() implies a[i] == b[i] by {
            assert(current@[i]@ == qualifying@[i]@);
        }
        assert(a =~= b);
    }
}

/// The extra guilds are those of the subscriber's that are not known, each of
/// them and no other.
pub proof fn extra_guilds_are_the_unknown_ones(
    known: Vec<String>,
    of_subscriber: Vec<String>,
    r: Vec<String>,
    guild: Seq<char>,
)
    requires
        call_ensures(extra_guilds, (&known, &of_subscriber), r),
    ensures
        texts(r@).contains(guild) <==> texts(of_subscriber@).contains(guild) && !texts(
            known@,
        ).contains(guild),
{
    lemma_without(texts(of_subscriber@), texts(known@), guild);
}

proof fn lemma_without(all: Seq<Seq<char>>, known: Seq<Seq<char>>, t: Seq<char>)
    ensures
        without(all, known).contains(t) <==> all.contains(t) && !known.contains(t),
    decreases all.len(),
{
    if all.len() > 0 {
        let before = all.drop_last();
        let w = without(all, known);
        let w0 = without(before, known);
        lemma_without(before, known, t);
        if w.contains(t) {
            let k = choose|k: int| 0 <= k < w.len() && w[k] == t;
            if k < w0.len() {
                assert(w0[k] == t);
                assert(w0.contains(t));
                let i = choose|i: int| 0 <= i < before.len() && before[i] == t;
                assert(all[i] == t);
            } else {
                assert(all[all.len() - 1] == t);
            }
        }
        if all.contains(t) && !known.contains(t) {
            let i = choose|i: int| 0 <= i < all.len() && all[i] == t;
            if i < before.len() {
                assert(before[i] == t);
                let k = choose|k: int| 0 <= k < w0.len() && w0[k] == t;
                assert(w[k] == t);
            } else {
                assert(w[w.len() - 1] == t);
            }
        }
    }
}

} // verus!
