//! What the routes let through, and what they answer.
//!
//! Each law speaks of what a function was given and of what it gave.
use vstd::prelude::*;
use crate::error::AppError;
use crate::json::{entry_value, Json, JsonValue};
use crate::models::rule::RuleTree;
use crate::routes::admin::{
    account_document, account_json, connect_request, entry_token,
    iframe_access, iframe_entry, looks_embedded, manager_access, preview_step,
    require_account, require_connected, require_writable, save_outcome, visit_step,
    webhook_secret_request, webhook_secret_stored, AccountRow, ConnectBody, ConnectRequest,
    IframeSession, PreviewStep, RlTokenError, RoleConfigAccess, RoleConfigPageQuery, VerifiedToken,
    VisitStep, WebhookSecretBody,
};
use crate::routes::verify::{membership_document, status_json, MembershipRow};
use crate::services::stripe_laws::has;
use crate::text::{ascii_lower, text_of, trimmed};

verus! {

// ---------------------------------------------------------------------------
// Connecting
// ---------------------------------------------------------------------------

/// The text starts with the other.
pub open spec fn starts(s: Seq<char>, head: Seq<char>) -> bool {
    head.len() <= s.len() && s.take(head.len() as int) == head
}

proof fn lemma_starts(s: Seq<char>, head: Seq<char>)
    ensures
        head.is_prefix_of(s) == starts(s, head),
{
    if head.is_prefix_of(s) {
        assert(s.take(head.len() as int) =~= head);
    }
    if starts(s, head) {
        assert(head =~= s.subrange(0, head.len() as int));
    }
}

/// An account is connected exactly with a key that starts like a restricted or a
/// secret one, the white space around it aside. It is looked for under the given
/// name in the metadata, or under the usual one.
pub proof fn key_that_looks_like_one_is_taken(
    body: ConnectBody,
    r: Result<ConnectRequest, AppError>,
)
    requires
        call_ensures(connect_request, (&body,), r),
    ensures
        ({
            let key = trimmed(body.api_key@);
            r is Ok <==> starts(key, "rk_"@) || starts(key, "sk_"@)
        }),
        r is Err ==> r->Err_0 is BadRequest,
        r matches Ok(c) ==> {
            &&& c.api_key@ == trimmed(body.api_key@)
            &&& body.webhook_secret matches Some(s) ==> if trimmed(s@).len() > 0 {
                text_of(c.webhook_secret) == Some(trimmed(s@))
            } else {
                c.webhook_secret is None
            }
            &&& body.webhook_secret is None ==> c.webhook_secret is None
            &&& body.discord_metadata_key is None ==> c.metadata_key@ == "discord_user_id"@
            &&& body.discord_metadata_key matches Some(k) ==> c.metadata_key@ == if trimmed(
                k@,
            ).len() > 0 {
                trimmed(k@)
            } else {
                "discord_user_id"@
            }
        },
{
    let key = trimmed(body.api_key@);
    lemma_starts(key, "rk_"@);
    lemma_starts(key, "sk_"@);
    reveal_strlit("rk_");
    reveal_strlit("sk_");
}

/// A signing secret is taken exactly where it starts like one.
pub proof fn secret_that_looks_like_one_is_taken(
    body: WebhookSecretBody,
    r: Result<String, AppError>,
)
    requires
        call_ensures(webhook_secret_request, (&body,), r),
    ensures
        r is Ok <==> starts(trimmed(body.webhook_secret@), "whsec_"@),
        r matches Ok(s) ==> s@ == trimmed(body.webhook_secret@),
        r is Err ==> r->Err_0 is BadRequest,
{
    lemma_starts(trimmed(body.webhook_secret@), "whsec_"@);
    reveal_strlit("whsec_");
}

/// A secret was stored exactly where an account took it.
pub proof fn stored_secret_has_an_account(rows: u64, r: Result<JsonValue, AppError>)
    requires
        call_ensures(webhook_secret_stored, (rows,), r),
    ensures
        r is Ok <==> rows > 0,
        r is Err ==> r->Err_0 is NotFound,
{
}

// ---------------------------------------------------------------------------
// Who may do what
// ---------------------------------------------------------------------------

/// A session of the frame gives access exactly to the role link that it was made
/// for, as the one it was made for, and no more than it may do.
pub proof fn session_opens_its_own_link(
    session: Option<IframeSession>,
    guild: &str,
    role: &str,
    r: Result<RoleConfigAccess, AppError>,
)
    requires
        call_ensures(iframe_access, (session, guild, role), r),
    ensures
        session is None ==> r is Err && r->Err_0 is UnauthorizedWith,
        session matches Some(s) ==> {
            &&& r is Ok <==> s.guild_id@ == guild@ && s.role_id@ == role@
            &&& r matches Ok(a) ==> a.discord_id@ == s.discord_id@ && a.read_only == s.read_only
            &&& r is Err ==> r->Err_0 is Forbidden
        },
{
}

/// A token lets its bearer in exactly where it was verified and speaks of the
/// role link.
pub proof fn token_opens_its_own_link(
    token: Result<VerifiedToken, RlTokenError>,
    guild: &str,
    role: &str,
    r: Result<RoleConfigAccess, &'static str>,
)
    requires
        call_ensures(iframe_entry, (token, guild, role), r),
    ensures
        token is Err ==> r is Err,
        token matches Ok(t) ==> {
            &&& r is Ok <==> t.guild_id@ == guild@ && t.role_id@ == role@
            &&& r matches Ok(a) ==> a.discord_id@ == t.discord_id@ && a.read_only == t.read_only
        },
{
}

/// A manager may write, and exactly one who may only read may not.
pub proof fn readers_do_not_write(
    id: String,
    manager: RoleConfigAccess,
    access: RoleConfigAccess,
    r: Result<(), AppError>,
)
    requires
        call_ensures(manager_access, (id,), manager),
        call_ensures(require_writable, (&access,), r),
    ensures
        manager.discord_id@ == id@ && !manager.read_only,
        r is Err <==> access.read_only,
        r is Err ==> r->Err_0 is Forbidden,
{
}

/// A visit has a token exactly where it brings one that is not empty.
pub proof fn empty_token_is_none(q: RoleConfigPageQuery, r: Option<&str>)
    requires
        call_ensures(entry_token, (&q,), r),
    ensures
        r is Some <==> q.rl_token is Some && q.rl_token->0@.len() > 0,
        r matches Some(t) ==> t@ == q.rl_token->0@,
{
}

/// A page is embedded exactly where the browser fetches it for a frame or from
/// another site, in whatever case it says so.
pub proof fn frames_and_other_sites_embed(dest: Option<&str>, site: Option<&str>, r: bool)
    requires
        call_ensures(looks_embedded, (dest, site), r),
    ensures
        r <==> (dest is Some && (ascii_lower(dest->0@) == "iframe"@ || ascii_lower(dest->0@)
            == "frame"@)) || (site is Some && ascii_lower(site->0@) == "cross-site"@),
{
    reveal_strlit("iframe");
    reveal_strlit("frame");
    reveal_strlit("cross-site");
    assert("iframe"@.len() == 6 && "frame"@.len() == 5 && "cross-site"@.len() == 10);
}

/// A manager sees the configuration and nobody else does; a frame without a token
/// is told so.
pub proof fn only_managers_see_the_configuration(
    manager: bool,
    token: bool,
    framed: bool,
    r: VisitStep,
)
    requires
        call_ensures(visit_step, (manager, token, framed), r),
    ensures
        r is Configuration <==> manager,
        r is NoToken <==> !manager && framed && !token,
{
}

// ---------------------------------------------------------------------------
// Saving and previews
// ---------------------------------------------------------------------------

/// A rule is saved only with an account that is connected, or with none, and one
/// that could admit anybody only with an account.
pub proof fn saved_rule_has_its_account(
    account: Option<i64>,
    connected: bool,
    first: Result<(), AppError>,
    tree: RuleTree,
    second: Result<(), AppError>,
)
    requires
        call_ensures(require_connected, (account, connected), first),
        call_ensures(require_account, (account, &tree), second),
    ensures
        first is Err <==> account is Some && !connected,
        second is Err <==> account is None && (tree.grant_on_any_relation || tree.groups@.len()
            > 0),
        first is Err ==> first->Err_0 is BadRequest,
        second is Err ==> second->Err_0 is BadRequest,
{
    assert(tree@.groups.len() == tree.groups@.len());
}

/// A save that no role link took failed: the link is missing, or was changed in
/// the meantime.
pub proof fn untaken_save_fails(rows: u64, found: Option<i32>, r: Result<(), AppError>)
    requires
        call_ensures(save_outcome, (rows, found), r),
    ensures
        r is Ok <==> rows > 0,
        r is Err && found is None ==> r->Err_0 is NotFound,
        r is Err && found is Some ==> r->Err_0 is StaleVersion,
{
}

/// A preview counts in the account of the rule: everybody where the rule grants
/// on any relation, those whom it admits where it has groups, and nobody
/// otherwise.
pub proof fn preview_counts_whom_the_rule_could_admit(
    account: Option<i64>,
    tree: RuleTree,
    r: PreviewStep,
)
    requires
        call_ensures(preview_step, (account, &tree), r),
    ensures
        r is Nobody <==> account is None || (!tree.grant_on_any_relation && tree.groups@.len()
            == 0),
        r matches PreviewStep::Everybody(a) ==> account == Some(a) && tree.grant_on_any_relation,
        r matches PreviewStep::Count(a) ==> account == Some(a) && !tree.grant_on_any_relation,
{
    assert(tree@.groups.len() == tree.groups@.len());
}

// ---------------------------------------------------------------------------
// Documents
// ---------------------------------------------------------------------------

proof fn lemma_entry(entries: Seq<(Seq<char>, Json)>, i: int)
    requires
        0 <= i < entries.len(),
        forall|j: int| 0 <= j < i ==> (#[trigger] entries[j]).0 != entries[i].0,
    ensures
        entry_value(entries, entries[i].0) == Some(entries[i].1),
    decreases i,
{
    if i > 0 {
        assert(entries[0].0 != entries[i].0);
        let rest = entries.drop_first();
        assert(rest[i - 1] == entries[i]);
        assert forall|j: int| 0 <= j < i - 1 implies (#[trigger] rest[j]).0 != rest[i - 1].0 by {
            assert(rest[j] == entries[j + 1]);
        }
        lemma_entry(rest, i - 1);
    }
}

/// All names differ.
spec fn names_differ(entries: Seq<(Seq<char>, Json)>) -> bool {
    forall|i: int, j: int|
        0 <= i < j < entries.len() ==> (#[trigger] entries[i]).0 != (#[trigger] entries[j]).0
}

proof fn lemma_members(entries: Seq<(Seq<char>, Json)>)
    requires
        names_differ(entries),
    ensures
        forall|i: int|
            0 <= i < entries.len() ==> entry_value(entries, (#[trigger] entries[i]).0) == Some(
                entries[i].1,
            ),
{
    assert forall|i: int| 0 <= i < entries.len() implies entry_value(
        entries,
        (#[trigger] entries[i]).0,
    ) == Some(entries[i].1) by {
        assert forall|j: int| 0 <= j < i implies (#[trigger] entries[j]).0 != entries[i].0 by {}
        lemma_entry(entries, i);
    }
}

/// The document of an account tells its id, whether it is live, whether its
/// webhook is configured, and where the webhook is.
pub proof fn account_is_told_as_it_is(base_url: &str, a: AccountRow, r: JsonValue)
    requires
        call_ensures(account_json, (base_url, &a), r),
    ensures
        has(r@, "id"@, Json::Int(a.id as int)),
        has(r@, "stripe_account_id"@, Json::Str(a.stripe_account_id@)),
        has(r@, "display_name"@, Json::Str(a.display_name@)),
        has(r@, "livemode"@, Json::Bool(a.livemode)),
        has(r@, "discord_metadata_key"@, Json::Str(a.discord_metadata_key@)),
        has(r@, "webhook_configured"@, Json::Bool(a.webhook_configured)),
        has(
            r@,
            "webhook_url"@,
            Json::Str(
                base_url@ + "/webhooks/stripe/"@ + crate::numeral::decimal_int(a.id as int),
            ),
        ),
{
    let e = account_document(base_url@, a)->Object_0;
    lemma_account_names();
    assert(e.len() == 10);
    assert(names_differ(e));
    lemma_members(e);
    assert(e[0].0 == "id"@);
    assert(e[1].0 == "stripe_account_id"@);
    assert(e[2].0 == "display_name"@);
    assert(e[4].0 == "livemode"@);
    assert(e[5].0 == "discord_metadata_key"@);
    assert(e[6].0 == "webhook_configured"@);
    assert(e[7].0 == "webhook_url"@);
}

proof fn lemma_account_names()
    ensures
        "id"@.len() == 2,
        "stripe_account_id"@.len() == 17,
        "display_name"@.len() == 12,
        "country"@.len() == 7,
        "livemode"@.len() == 8,
        "discord_metadata_key"@.len() == 20,
        "webhook_configured"@.len() == 18,
        "webhook_url"@.len() == 11,
        "last_synced_at"@.len() == 14,
        "last_backfill_at"@.len() == 16,
{
    reveal_strlit("id");
    reveal_strlit("stripe_account_id");
    reveal_strlit("display_name");
    reveal_strlit("country");
    reveal_strlit("livemode");
    reveal_strlit("discord_metadata_key");
    reveal_strlit("webhook_configured");
    reveal_strlit("webhook_url");
    reveal_strlit("last_synced_at");
    reveal_strlit("last_backfill_at");
}

proof fn lemma_membership_names()
    ensures
        "account"@.len() == 7,
        "livemode"@.len() == 8,
        "livemode"@[0] == 'l',
        "has_active_subscription"@.len() == 23,
        "status"@.len() == 6,
        "is_trialing"@.len() == 11,
        "cancels_at_period_end"@.len() == 21,
        "plan_amount_cents"@.len() == 17,
        "currency"@.len() == 8,
        "currency"@[0] == 'c',
        "total_mrr_cents"@.len() == 15,
        "current_period_end"@.len() == 18,
{
    reveal_strlit("account");
    reveal_strlit("livemode");
    reveal_strlit("has_active_subscription");
    reveal_strlit("status");
    reveal_strlit("is_trialing");
    reveal_strlit("cancels_at_period_end");
    reveal_strlit("plan_amount_cents");
    reveal_strlit("currency");
    reveal_strlit("total_mrr_cents");
    reveal_strlit("current_period_end");
}

/// The document of a membership tells what is stored of it.
pub open spec fn tells_membership(d: Json, m: MembershipRow) -> bool {
    &&& has(d, "account"@, Json::Str(m.display_name@))
    &&& has(d, "livemode"@, Json::Bool(m.livemode))
    &&& has(d, "has_active_subscription"@, Json::Bool(m.has_active_subscription))
    &&& has(d, "is_trialing"@, Json::Bool(m.is_trialing))
    &&& has(d, "cancels_at_period_end"@, Json::Bool(m.cancels_at_period_end))
    &&& has(d, "plan_amount_cents"@, Json::Int(m.plan_amount_cents as int))
    &&& has(d, "total_mrr_cents"@, Json::Int(m.total_mrr_cents as int))
    &&& m.subscription_status matches Some(s) ==> has(d, "status"@, Json::Str(s@))
    &&& m.currency matches Some(c) ==> has(d, "currency"@, Json::Str(c@))
}

proof fn lemma_membership(m: MembershipRow)
    ensures
        tells_membership(membership_document(m), m),
{
    let e = membership_document(m)->Object_0;
    lemma_membership_names();
    assert(e.len() == 10);
    assert(names_differ(e));
    lemma_members(e);
    assert(e[0].0 == "account"@);
    assert(e[1].0 == "livemode"@);
    assert(e[2].0 == "has_active_subscription"@);
    assert(e[3].0 == "status"@);
    assert(e[4].0 == "is_trialing"@);
    assert(e[5].0 == "cancels_at_period_end"@);
    assert(e[6].0 == "plan_amount_cents"@);
    assert(e[7].0 == "currency"@);
    assert(e[8].0 == "total_mrr_cents"@);
}

/// A member's status tells whether they are signed in and, for each membership in
/// order, what is stored of it.
pub proof fn status_is_told_as_it_is(
    username: Option<String>,
    memberships: Vec<MembershipRow>,
    r: JsonValue,
)
    requires
        call_ensures(status_json, (&username, &memberships), r),
    ensures
        has(r@, "signed_in_discord"@, Json::Bool(username is Some)),
        username matches Some(n) ==> has(r@, "discord_username"@, Json::Str(n@)),
        exists|items: Seq<Json>|
            {
                &&& #[trigger] has(r@, "memberships"@, Json::Array(items))
                &&& items.len() == memberships@.len()
                &&& forall|i: int|
                    0 <= i < items.len() ==> tells_membership(#[trigger] items[i], memberships@[i])
            },
{
    reveal_strlit("signed_in_discord");
    reveal_strlit("discord_username");
    reveal_strlit("memberships");
    let e = r@->Object_0;
    assert("signed_in_discord"@.len() == 17 && "discord_username"@.len() == 16
        && "memberships"@.len() == 11);
    assert(e.len() == 3);
    assert(names_differ(e));
    lemma_members(e);
    assert(e[0].0 == "signed_in_discord"@);
    assert(e[1].0 == "discord_username"@);
    assert(e[2].0 == "memberships"@);
    let items = memberships@.map_values(|m: MembershipRow| membership_document(m));
    assert(has(r@, "memberships"@, Json::Array(items)));
    assert forall|i: int| 0 <= i < items.len() implies tells_membership(
        #[trigger] items[i],
        memberships@[i],
    ) by {
        lemma_membership(memberships@[i]);
    }
}

} // verus!
