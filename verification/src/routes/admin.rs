//! The administration of accounts and role configurations.
//!
//! A caller comes with a session of the dashboard's frame or as a manager of the
//! guild. A session may be read-only.
use vstd::prelude::*;
use vstd::string::StringExecFns;
use vstd::utf8::encode_utf8;
use crate::clock::{rfc3339, rfc3339_text, Timestamp};
use crate::error::{outcome, AppError, ErrorModel};
use crate::json::{
    add_text, entries_model, items_model, lemma_items_model_push, put, text_json, text_or_null,
    text_value, Json, JsonValue,
};
use crate::models::rule::{RuleModel, RuleTree, MAX_CONDITIONS_PER_GROUP, MAX_GROUPS};
use crate::models::rule_json::{groups_json, groups_to_json};
use crate::numeral::{decimal_i64, decimal_int};
use crate::routes::catalog::{operator_catalog, operators_json, target_catalog, targets_json};
use crate::services::crypto::{encrypt, opened, CryptoError, MAX_PLAINTEXT};
use crate::services::rule_sql::{binds_model, build_rule_where, rule_binds, rule_sql, Bind};
use crate::services::stripe::{
    PriceCatalogEntry, PriceEntryModel, ProductCatalogEntry,
};
use crate::services::sync::grants_nobody;
use crate::tasks::reconcile::{encrypted_key_reads_back, key_text};
use crate::text::{ascii_lower, str_eq, str_starts_with, text_of, trimmed};

verus! {

// ---------------------------------------------------------------------------
// Documents
// ---------------------------------------------------------------------------

/// The events that a webhook is to be subscribed to.
pub open spec fn webhook_events() -> Json {
    Json::Array(
        seq![
            Json::Str("checkout.session.completed"@),
            Json::Str("customer.subscription.created"@),
            Json::Str("customer.subscription.updated"@),
            Json::Str("customer.subscription.deleted"@),
            Json::Str("customer.updated"@),
            Json::Str("customer.deleted"@),
            Json::Str("charge.succeeded"@),
            Json::Str("invoice.payment_failed"@),
        ],
    )
}

pub fn webhook_events_json() -> (r: JsonValue)
    ensures
        r@ == webhook_events(),
{
    let mut items: Vec<JsonValue> = Vec::new();
    proof {
        assert(items_model(items@) =~= Seq::empty());
    }
    add_text(&mut items, "checkout.session.completed");
    add_text(&mut items, "customer.subscription.created");
    add_text(&mut items, "customer.subscription.updated");
    add_text(&mut items, "customer.subscription.deleted");
    add_text(&mut items, "customer.updated");
    add_text(&mut items, "customer.deleted");
    add_text(&mut items, "charge.succeeded");
    add_text(&mut items, "invoice.payment_failed");
    proof {
        assert(items_model(items@) =~= webhook_events()->Array_0);
    }
    JsonValue::Array(items)
}

/// An object that is still empty.
fn no_entries() -> (r: Vec<(String, JsonValue)>)
    ensures
        entries_model(r@) == Seq::<(Seq<char>, Json)>::empty(),
{
    let entries: Vec<(String, JsonValue)> = Vec::new();
    proof {
        assert(entries_model(entries@) =~= Seq::empty());
    }
    entries
}

/// A point in time as a text, or null.
pub open spec fn time_json(t: Option<Timestamp>) -> Json {
    match t {
        Some(at) => text_json(rfc3339(at.secs, at.nanos)),
        None => Json::Null,
    }
}

pub fn time_value(t: Option<Timestamp>) -> (r: JsonValue)
    ensures
        r@ == time_json(t),
{
    match t {
        Some(at) => text_or_null(&rfc3339_text(at)),
        None => JsonValue::Null,
    }
}

/// A number, or null.
pub open spec fn int_json(n: Option<i64>) -> Json {
    match n {
        Some(v) => Json::Int(v as int),
        None => Json::Null,
    }
}

fn int_value(n: i64) -> (r: JsonValue)
    ensures
        r@ == Json::Int(n as int),
{
    JsonValue::Int(n as i128)
}

fn int_or_null(n: Option<i64>) -> (r: JsonValue)
    ensures
        r@ == int_json(n),
{
    match n {
        Some(v) => int_value(v),
        None => JsonValue::Null,
    }
}

// ---------------------------------------------------------------------------
// Accounts
// ---------------------------------------------------------------------------

/// A connected account.
#[derive(Debug)]
pub struct AccountRow {
    pub id: i64,
    pub stripe_account_id: String,
    pub display_name: String,
    pub country: Option<String>,
    pub livemode: bool,
    pub discord_metadata_key: String,
    pub webhook_configured: bool,
    pub last_synced_at: Option<Timestamp>,
    pub last_backfill_at: Option<Timestamp>,
}

/// The document of an account. It tells the address of the account's webhook.
pub open spec fn account_document(base_url: Seq<char>, a: AccountRow) -> Json {
    Json::Object(
        seq![
            ("id"@, Json::Int(a.id as int)),
            ("stripe_account_id"@, Json::Str(a.stripe_account_id@)),
            ("display_name"@, Json::Str(a.display_name@)),
            ("country"@, text_json(text_of(a.country))),
            ("livemode"@, Json::Bool(a.livemode)),
            ("discord_metadata_key"@, Json::Str(a.discord_metadata_key@)),
            ("webhook_configured"@, Json::Bool(a.webhook_configured)),
            (
                "webhook_url"@,
                Json::Str(base_url + "/webhooks/stripe/"@ + decimal_int(a.id as int)),
            ),
            ("last_synced_at"@, time_json(a.last_synced_at)),
            ("last_backfill_at"@, time_json(a.last_backfill_at)),
        ],
    )
}

/// Writes the document of an account.
pub fn account_json(base_url: &str, a: &AccountRow) -> (r: JsonValue)
    ensures
        r@ == account_document(base_url@, *a),
{
    let mut url = base_url.to_owned();
    url.append("/webhooks/stripe/");
    url.append(decimal_i64(a.id).as_str());
    let mut e = no_entries();
    put(&mut e, "id", int_value(a.id));
    put(&mut e, "stripe_account_id", text_value(a.stripe_account_id.as_str()));
    put(&mut e, "display_name", text_value(a.display_name.as_str()));
    put(&mut e, "country", text_or_null(&a.country));
    put(&mut e, "livemode", JsonValue::Bool(a.livemode));
    put(&mut e, "discord_metadata_key", text_value(a.discord_metadata_key.as_str()));
    put(&mut e, "webhook_configured", JsonValue::Bool(a.webhook_configured));
    put(&mut e, "webhook_url", JsonValue::Str(url));
    put(&mut e, "last_synced_at", time_value(a.last_synced_at));
    put(&mut e, "last_backfill_at", time_value(a.last_backfill_at));
    proof {
        assert(entries_model(e@) =~= account_document(base_url@, *a)->Object_0);
    }
    JsonValue::Object(e)
}

/// The documents of a list of accounts.
pub open spec fn account_documents(base_url: Seq<char>, accounts: Seq<AccountRow>) -> Json {
    Json::Array(accounts.map_values(|a: AccountRow| account_document(base_url, a)))
}

fn accounts_array(base_url: &str, accounts: &Vec<AccountRow>) -> (r: JsonValue)
    ensures
        r@ == account_documents(base_url@, accounts@),
{
    let ghost all = accounts@.map_values(|a: AccountRow| account_document(base_url@, a));
    let mut items: Vec<JsonValue> = Vec::new();
    let mut i: usize = 0;
    while i < accounts.len()
        invariant
            all == accounts@.map_values(|a: AccountRow| account_document(base_url@, a)),
            i <= accounts.len(),
            items_model(items@) =~= all.take(i as int),
        decreases accounts.len() - i,
    {
        let v = account_json(base_url, &accounts[i]);
        proof {
            lemma_items_model_push(items@, v);
        }
        items.push(v);
        i = i + 1;
    }
    proof {
        assert(all.take(i as int) =~= all);
    }
    JsonValue::Array(items)
}

/// Answers the list of accounts.
pub fn account_list_json(base_url: &str, accounts: &Vec<AccountRow>) -> (r: JsonValue)
    ensures
        r@ == Json::Object(seq![("accounts"@, account_documents(base_url@, accounts@))]),
{
    let mut e = no_entries();
    put(&mut e, "accounts", accounts_array(base_url, accounts));
    proof {
        assert(entries_model(e@) =~= seq![
            ("accounts"@, account_documents(base_url@, accounts@)),
        ]);
    }
    JsonValue::Object(e)
}

/// Answers a connection.
pub fn account_connected_json(base_url: &str, account: &AccountRow) -> (r: JsonValue)
    ensures
        r@ == Json::Object(
            seq![
                ("account"@, account_document(base_url@, *account)),
                ("webhook_events"@, webhook_events()),
            ],
        ),
{
    let mut e = no_entries();
    put(&mut e, "account", account_json(base_url, account));
    put(&mut e, "webhook_events", webhook_events_json());
    proof {
        assert(entries_model(e@) =~= seq![
            ("account"@, account_document(base_url@, *account)),
            ("webhook_events"@, webhook_events()),
        ]);
    }
    JsonValue::Object(e)
}

/// Answers a disconnection.
pub fn account_disconnected_json(rows_affected: u64) -> (r: JsonValue)
    ensures
        r@ == Json::Object(seq![("removed"@, Json::Bool(rows_affected > 0))]),
{
    let mut e = no_entries();
    put(&mut e, "removed", JsonValue::Bool(rows_affected > 0));
    proof {
        assert(entries_model(e@) =~= seq![("removed"@, Json::Bool(rows_affected > 0))]);
    }
    JsonValue::Object(e)
}

// ---------------------------------------------------------------------------
// Connecting an account
// ---------------------------------------------------------------------------

/// What an account is connected with.
#[derive(Debug)]
pub struct ConnectBody {
    pub api_key: String,
    pub webhook_secret: Option<String>,
    pub discord_metadata_key: Option<String>,
}

/// What an account is connected with, once it was looked at.
#[derive(Debug)]
pub struct ConnectRequest {
    pub api_key: String,
    pub webhook_secret: Option<String>,
    pub metadata_key: String,
}

pub struct ConnectModel {
    pub api_key: Seq<char>,
    pub webhook_secret: Option<Seq<char>>,
    pub metadata_key: Seq<char>,
}

impl View for ConnectRequest {
    type V = ConnectModel;

    open spec fn view(&self) -> ConnectModel {
        ConnectModel {
            api_key: self.api_key@,
            webhook_secret: text_of(self.webhook_secret),
            metadata_key: self.metadata_key@,
        }
    }
}

/// A text without the white space around it, where anything is left.
pub open spec fn filled(s: Option<Seq<char>>) -> Option<Seq<char>> {
    match s {
        Some(t) => if trimmed(t).len() > 0 {
            Some(trimmed(t))
        } else {
            None
        },
        None => None,
    }
}

/// A key starts like a restricted or a secret one.
pub open spec fn looks_like_key(key: Seq<char>) -> bool {
    "rk_"@.is_prefix_of(key) || "sk_"@.is_prefix_of(key)
}

/// What a request to connect an account comes to.
pub open spec fn connection(body: ConnectBody) -> Result<ConnectModel, ErrorModel> {
    let key = trimmed(body.api_key@);
    if key.len() == 0 {
        Err(ErrorModel::BadRequest("Paste your Stripe API key."@))
    } else if !looks_like_key(key) {
        Err(
            ErrorModel::BadRequest(
                "That doesn't look like a Stripe secret/restricted key (expected rk_… or sk_…)."@,
            ),
        )
    } else {
        Ok(
            ConnectModel {
                api_key: key,
                webhook_secret: filled(text_of(body.webhook_secret)),
                metadata_key: match filled(text_of(body.discord_metadata_key)) {
                    Some(k) => k,
                    None => "discord_user_id"@,
                },
            },
        )
    }
}

fn is_empty(s: &str) -> (r: bool)
    ensures
        r == (s@.len() == 0),
{
    proof {
        reveal_strlit("");
        if s@.len() == 0 {
            assert(s@ =~= ""@);
        }
    }
    str_eq(s, "")
}

fn fill(s: &Option<String>) -> (r: Option<String>)
    ensures
        text_of(r) == filled(text_of(*s)),
{
    match s {
        Some(t) => {
            let u = t.as_str().trim();
            if is_empty(u) {
                None
            } else {
                Some(u.to_owned())
            }
        },
        None => None,
    }
}

/// Looks at a request to connect an account.
pub fn connect_request(body: &ConnectBody) -> (r: Result<ConnectRequest, AppError>)
    ensures
        outcome(r) == connection(*body),
{
    let key = body.api_key.as_str().trim();
    if is_empty(key) {
        return Err(AppError::BadRequest("Paste your Stripe API key.".to_owned()));
    }
    if !(str_starts_with(key, "rk_") || str_starts_with(key, "sk_")) {
        return Err(
            AppError::BadRequest(
                "That doesn't look like a Stripe secret/restricted key (expected rk_… or sk_…).".to_owned(),
            ),
        );
    }
    let metadata_key = match fill(&body.discord_metadata_key) {
        Some(k) => k,
        None => "discord_user_id".to_owned(),
    };
    Ok(
        ConnectRequest {
            api_key: key.to_owned(),
            webhook_secret: fill(&body.webhook_secret),
            metadata_key,
        },
    )
}

/// Encrypts a secret of an account for storage. Decryption gives it back.
pub fn seal_secret(session_secret: &str, secret: &str) -> (r: Vec<u8>)
    requires
        encode_utf8(secret@).len() <= MAX_PLAINTEXT,
    ensures
        opened(session_secret@, r@) == Ok::<Seq<u8>, CryptoError>(encode_utf8(secret@)),
        key_text(session_secret@, r@) == Ok::<Seq<char>, ErrorModel>(secret@),
{
    let r = encrypt(session_secret, secret.as_bytes());
    proof {
        encrypted_key_reads_back(session_secret@, r@, secret@);
    }
    r
}

// ---------------------------------------------------------------------------
// The signing secret
// ---------------------------------------------------------------------------

#[derive(Debug)]
pub struct WebhookSecretBody {
    pub webhook_secret: String,
}

/// What a request to set the signing secret comes to.
pub open spec fn signing_secret(given: Seq<char>) -> Result<Seq<char>, ErrorModel> {
    let secret = trimmed(given);
    if secret.len() == 0 {
        Err(ErrorModel::BadRequest("Paste the webhook signing secret (whsec_…)."@))
    } else if !"whsec_"@.is_prefix_of(secret) {
        Err(
            ErrorModel::BadRequest(
                "That doesn't look like a Stripe signing secret (expected whsec_…)."@,
            ),
        )
    } else {
        Ok(secret)
    }
}

/// Looks at a request to set the signing secret.
pub fn webhook_secret_request(body: &WebhookSecretBody) -> (r: Result<String, AppError>)
    ensures
        outcome(r) == signing_secret(body.webhook_secret@),
{
    let secret = body.webhook_secret.as_str().trim();
    if is_empty(secret) {
        return Err(AppError::BadRequest("Paste the webhook signing secret (whsec_…).".to_owned()));
    }
    if !str_starts_with(secret, "whsec_") {
        return Err(
            AppError::BadRequest(
                "That doesn't look like a Stripe signing secret (expected whsec_…).".to_owned(),
            ),
        );
    }
    Ok(secret.to_owned())
}

/// Answers a request to set the signing secret, given how many accounts it
/// changed.
pub fn webhook_secret_stored(rows_affected: u64) -> (r: Result<JsonValue, AppError>)
    ensures
        outcome(r) == if rows_affected == 0 {
            Err::<Json, ErrorModel>(
                ErrorModel::NotFound("That Stripe account isn't connected to this server."@),
            )
        } else {
            Ok(
                Json::Object(
                    seq![
                        ("success"@, Json::Bool(true)),
                        ("webhook_configured"@, Json::Bool(true)),
                    ],
                ),
            )
        },
{
    if rows_affected == 0 {
        return Err(
            AppError::NotFound("That Stripe account isn't connected to this server.".to_owned()),
        );
    }
    let mut e = no_entries();
    put(&mut e, "success", JsonValue::Bool(true));
    put(&mut e, "webhook_configured", JsonValue::Bool(true));
    proof {
        assert(entries_model(e@) =~= seq![
            ("success"@, Json::Bool(true)),
            ("webhook_configured"@, Json::Bool(true)),
        ]);
    }
    Ok(JsonValue::Object(e))
}

// ---------------------------------------------------------------------------
// The catalog of an account
// ---------------------------------------------------------------------------

/// The document of a product.
pub open spec fn product_document(p: (Seq<char>, Seq<char>)) -> Json {
    Json::Object(seq![("id"@, Json::Str(p.0)), ("name"@, Json::Str(p.1))])
}

/// The document of a price.
pub open spec fn price_document(p: PriceEntryModel) -> Json {
    Json::Object(
        seq![
            ("id"@, Json::Str(p.id)),
            ("product_id"@, text_json(p.product_id)),
            ("nickname"@, text_json(p.nickname)),
            ("unit_amount_cents"@, int_json(p.unit_amount_cents)),
            ("currency"@, text_json(p.currency)),
            ("interval"@, text_json(p.interval)),
        ],
    )
}

fn product_json(p: &ProductCatalogEntry) -> (r: JsonValue)
    ensures
        r@ == product_document(p@),
{
    let mut e = no_entries();
    put(&mut e, "id", text_value(p.id.as_str()));
    put(&mut e, "name", text_value(p.name.as_str()));
    proof {
        assert(entries_model(e@) =~= product_document(p@)->Object_0);
    }
    JsonValue::Object(e)
}

fn price_json(p: &PriceCatalogEntry) -> (r: JsonValue)
    ensures
        r@ == price_document(p@),
{
    let mut e = no_entries();
    put(&mut e, "id", text_value(p.id.as_str()));
    put(&mut e, "product_id", text_or_null(&p.product_id));
    put(&mut e, "nickname", text_or_null(&p.nickname));
    put(&mut e, "unit_amount_cents", int_or_null(p.unit_amount_cents));
    put(&mut e, "currency", text_or_null(&p.currency));
    put(&mut e, "interval", text_or_null(&p.interval));
    proof {
        assert(entries_model(e@) =~= price_document(p@)->Object_0);
    }
    JsonValue::Object(e)
}

/// Answers the products and prices to pick from.
pub fn account_catalog_json(
    products: &Vec<ProductCatalogEntry>,
    prices: &Vec<PriceCatalogEntry>,
) -> (r: JsonValue)
    ensures
        r@ == Json::Object(
            seq![
                (
                    "products"@,
                    Json::Array(products@.map_values(|p: ProductCatalogEntry| product_document(p@))),
                ),
                (
                    "prices"@,
                    Json::Array(prices@.map_values(|p: PriceCatalogEntry| price_document(p@))),
                ),
            ],
        ),
{
    let ghost ps = products@.map_values(|p: ProductCatalogEntry| product_document(p@));
    let ghost qs = prices@.map_values(|p: PriceCatalogEntry| price_document(p@));
    let mut items: Vec<JsonValue> = Vec::new();
    let mut i: usize = 0;
    while i < products.len()
        invariant
            ps == products@.map_values(|p: ProductCatalogEntry| product_document(p@)),
            i <= products.len(),
            items_model(items@) =~= ps.take(i as int),
        decreases products.len() - i,
    {
        let v = product_json(&products[i]);
        proof {
            lemma_items_model_push(items@, v);
        }
        items.push(v);
        i = i + 1;
    }
    let mut priced: Vec<JsonValue> = Vec::new();
    let mut k: usize = 0;
    while k < prices.len()
        invariant
            qs == prices@.map_values(|p: PriceCatalogEntry| price_document(p@)),
            k <= prices.len(),
            items_model(priced@) =~= qs.take(k as int),
        decreases prices.len() - k,
    {
        let v = price_json(&prices[k]);
        proof {
            lemma_items_model_push(priced@, v);
        }
        priced.push(v);
        k = k + 1;
    }
    proof {
        assert(ps.take(i as int) =~= ps);
        assert(qs.take(k as int) =~= qs);
    }
    let mut e = no_entries();
    put(&mut e, "products", JsonValue::Array(items));
    put(&mut e, "prices", JsonValue::Array(priced));
    proof {
        assert(entries_model(e@) =~= seq![
            ("products"@, Json::Array(ps)),
            ("prices"@, Json::Array(qs)),
        ]);
    }
    JsonValue::Object(e)
}

/// The error for an account that is not connected to the guild.
pub fn account_not_connected() -> (r: AppError)
    ensures
        r@ == ErrorModel::NotFound("That Stripe account isn't connected here."@),
{
    AppError::NotFound("That Stripe account isn't connected here.".to_owned())
}

// ---------------------------------------------------------------------------
// Who is calling
// ---------------------------------------------------------------------------

/// The session of the dashboard's frame.
#[derive(Debug)]
pub struct IframeSession {
    pub discord_id: String,
    pub guild_id: String,
    pub role_id: String,
    pub read_only: bool,
}

/// Who is calling, and whether they may only read.
#[derive(Debug)]
pub struct RoleConfigAccess {
    pub discord_id: String,
    pub read_only: bool,
}

impl View for RoleConfigAccess {
    type V = (Seq<char>, bool);

    open spec fn view(&self) -> (Seq<char>, bool) {
        (self.discord_id@, self.read_only)
    }
}

/// What the session of a bearer token gives access to: the one role link that
/// it was made for.
pub open spec fn iframe_access_to(
    session: Option<IframeSession>,
    guild_id: Seq<char>,
    role_id: Seq<char>,
) -> Result<(Seq<char>, bool), ErrorModel> {
    match session {
        None => Err(
            ErrorModel::UnauthorizedWith(
                "Your session expired. Reopen the plugin in the RoleLogic dashboard."@,
            ),
        ),
        Some(s) => if s.guild_id@ != guild_id || s.role_id@ != role_id {
            Err(ErrorModel::Forbidden("Token does not grant access to this role link."@))
        } else {
            Ok((s.discord_id@, s.read_only))
        },
    }
}

/// Decides the access of a bearer token's session.
pub fn iframe_access(session: Option<IframeSession>, guild_id: &str, role_id: &str) -> (r: Result<
    RoleConfigAccess,
    AppError,
>)
    ensures
        outcome(r) == iframe_access_to(session, guild_id@, role_id@),
{
    match session {
        None => Err(
            AppError::UnauthorizedWith(
                "Your session expired. Reopen the plugin in the RoleLogic dashboard.".to_owned(),
            ),
        ),
        Some(s) => {
            if !str_eq(s.guild_id.as_str(), guild_id) || !str_eq(s.role_id.as_str(), role_id) {
                return Err(
                    AppError::Forbidden(
                        "Token does not grant access to this role link.".to_owned(),
                    ),
                );
            }
            Ok(RoleConfigAccess { discord_id: s.discord_id, read_only: s.read_only })
        },
    }
}

/// The access of a manager of the guild.
pub fn manager_access(discord_id: String) -> (r: RoleConfigAccess)
    ensures
        r@ == (discord_id@, false),
{
    RoleConfigAccess { discord_id, read_only: false }
}

// ---------------------------------------------------------------------------
// The configuration page
// ---------------------------------------------------------------------------

#[derive(Debug)]
pub struct RoleConfigPageQuery {
    pub rl_token: Option<String>,
}

/// The token that a visit comes with; an empty one is none.
pub open spec fn entry_token_of(q: RoleConfigPageQuery) -> Option<Seq<char>> {
    match q.rl_token {
        Some(t) => if t@.len() > 0 {
            Some(t@)
        } else {
            None
        },
        None => None,
    }
}

pub fn entry_token(query: &RoleConfigPageQuery) -> (r: Option<&str>)
    ensures
        match r {
            Some(t) => entry_token_of(*query) == Some(t@),
            None => entry_token_of(*query) is None,
        },
{
    match &query.rl_token {
        Some(t) => if is_empty(t.as_str()) {
            None
        } else {
            Some(t.as_str())
        },
        None => None,
    }
}

/// Why a token of the dashboard was not accepted.
#[derive(Debug, Clone, Copy, PartialEq, Eq, Structural)]
pub enum RlTokenError {
    Expired,
    BadSignature,
    Malformed,
    WrongAudience,
    WrongIssuer,
}

/// What a token of the dashboard says.
#[derive(Debug)]
pub struct VerifiedToken {
    pub discord_id: String,
    pub guild_id: String,
    pub role_id: String,
    pub read_only: bool,
}

/// What to tell of a token that was not accepted.
pub open spec fn token_error_text(e: RlTokenError) -> Seq<char> {
    match e {
        RlTokenError::Expired =>
            "Your session expired. Reopen the plugin in the RoleLogic dashboard."@,
        RlTokenError::BadSignature | RlTokenError::Malformed => "Invalid auth token."@,
        RlTokenError::WrongAudience => "Token is for a different plugin."@,
        RlTokenError::WrongIssuer => "Token was not issued by RoleLogic."@,
    }
}

pub fn token_error_message(e: RlTokenError) -> (r: &'static str)
    ensures
        r@ == token_error_text(e),
{
    match e {
        RlTokenError::Expired =>
            "Your session expired. Reopen the plugin in the RoleLogic dashboard.",
        RlTokenError::BadSignature | RlTokenError::Malformed => "Invalid auth token.",
        RlTokenError::WrongAudience => "Token is for a different plugin.",
        RlTokenError::WrongIssuer => "Token was not issued by RoleLogic.",
    }
}

/// What the search for a role link's token comes to, as far as the visit can go
/// on: the token, or what to tell.
pub fn link_token(lookup: Result<Option<String>, String>) -> (r: Result<String, String>)
    ensures
        match lookup {
            Ok(Some(t)) => r matches Ok(u) && u@ == t@,
            Ok(None) => r matches Err(m) && m@
                == "This role link isn't registered with this plugin yet."@,
            Err(e) => r matches Err(m) && m@ == "Database error: "@ + e@,
        },
{
    match lookup {
        Ok(found) => match found {
            Some(t) => Ok(t),
            None => Err("This role link isn't registered with this plugin yet.".to_owned()),
        },
        Err(e) => {
            let mut m = "Database error: ".to_owned();
            m.append(e.as_str());
            Err(m)
        },
    }
}

/// A verified token lets its bearer in when it speaks of this role link.
pub open spec fn entry_of(
    token: Result<VerifiedToken, RlTokenError>,
    guild_id: Seq<char>,
    role_id: Seq<char>,
) -> Result<(Seq<char>, bool), Seq<char>> {
    match token {
        Err(e) => Err(token_error_text(e)),
        Ok(t) => if t.guild_id@ != guild_id || t.role_id@ != role_id {
            Err("Token does not match this role link."@)
        } else {
            Ok((t.discord_id@, t.read_only))
        },
    }
}

/// Decides whether a token lets its bearer in.
pub fn iframe_entry(token: Result<VerifiedToken, RlTokenError>, guild_id: &str, role_id: &str) -> (r:
    Result<RoleConfigAccess, &'static str>)
    ensures
        match r {
            Ok(a) => entry_of(token, guild_id@, role_id@) == Ok::<(Seq<char>, bool), Seq<char>>(
                a@,
            ),
            Err(m) => entry_of(token, guild_id@, role_id@) == Err::<(Seq<char>, bool), Seq<char>>(
                m@,
            ),
        },
{
    match token {
        Err(e) => Err(token_error_message(e)),
        Ok(t) => {
            if !str_eq(t.guild_id.as_str(), guild_id) || !str_eq(t.role_id.as_str(), role_id) {
                return Err("Token does not match this role link.");
            }
            Ok(RoleConfigAccess { discord_id: t.discord_id, read_only: t.read_only })
        },
    }
}

pub open spec fn lower_or_empty(s: Option<&str>) -> Seq<char> {
    match s {
        Some(t) => ascii_lower(t@),
        None => Seq::empty(),
    }
}

/// A page is embedded when the browser says that it fetches it for a frame, or
/// from another site.
pub open spec fn embedded(dest: Option<&str>, site: Option<&str>) -> bool {
    ||| lower_or_empty(dest) == "iframe"@
    ||| lower_or_empty(dest) == "frame"@
    ||| lower_or_empty(site) == "cross-site"@
}

/// Whether a page is embedded, given the headers `sec-fetch-dest` and
/// `sec-fetch-site`.
pub fn looks_embedded(dest: Option<&str>, site: Option<&str>) -> (r: bool)
    ensures
        r == embedded(dest, site),
{
    proof {
        reveal_strlit("iframe");
        reveal_strlit("frame");
        reveal_strlit("cross-site");
        assert("iframe"@.len() > 0 && "frame"@.len() > 0 && "cross-site"@.len() > 0);
    }
    let framed = match dest {
        Some(d) => {
            let low = d.to_ascii_lowercase();
            str_eq(low.as_str(), "iframe") || str_eq(low.as_str(), "frame")
        },
        None => false,
    };
    let crossed = match site {
        Some(s) => {
            let low = s.to_ascii_lowercase();
            str_eq(low.as_str(), "cross-site")
        },
        None => false,
    };
    framed || crossed
}

/// What a visit without a session of the frame is shown.
#[derive(Debug, Clone, Copy, PartialEq, Eq, Structural)]
pub enum VisitStep {
    /// The configuration.
    Configuration,
    /// That the dashboard sent no token.
    NoToken,
    /// That a manager has to sign in.
    SignIn,
}

/// Decides what a visit without a session of the frame is shown.
pub fn visit_step(is_manager: bool, has_token: bool, is_embedded: bool) -> (r: VisitStep)
    ensures
        r == if is_manager {
            VisitStep::Configuration
        } else if !has_token && is_embedded {
            VisitStep::NoToken
        } else {
            VisitStep::SignIn
        },
{
    if is_manager {
        VisitStep::Configuration
    } else if !has_token && is_embedded {
        VisitStep::NoToken
    } else {
        VisitStep::SignIn
    }
}

// ---------------------------------------------------------------------------
// The data of a configuration
// ---------------------------------------------------------------------------

/// The error for a role link that does not exist.
pub open spec fn no_such_link() -> ErrorModel {
    ErrorModel::NotFound("This role link doesn't exist. Has it been added in RoleLogic?"@)
}

pub fn role_link_missing() -> (r: AppError)
    ensures
        r@ == no_such_link(),
{
    AppError::NotFound("This role link doesn't exist. Has it been added in RoleLogic?".to_owned())
}

/// The document of a role link's configuration, with all that the rule builder
/// needs.
pub open spec fn config_document(
    base_url: Seq<char>,
    guild_id: Seq<char>,
    role_id: Seq<char>,
    account_ref: Option<i64>,
    rule: RuleModel,
    version: i32,
    accounts: Seq<AccountRow>,
) -> Json {
    Json::Object(
        seq![
            ("guild_id"@, Json::Str(guild_id)),
            ("role_id"@, Json::Str(role_id)),
            (
                "config"@,
                Json::Object(
                    seq![
                        ("stripe_account_ref"@, int_json(account_ref)),
                        ("grant_on_any_relation"@, Json::Bool(rule.grant_on_any_relation)),
                        ("groups"@, groups_json(rule.groups)),
                    ],
                ),
            ),
            ("rule_tree_version"@, Json::Int(version as int)),
            ("accounts"@, account_documents(base_url, accounts)),
            ("targets"@, targets_json()),
            ("operators"@, operators_json()),
            (
                "limits"@,
                Json::Object(
                    seq![
                        ("max_groups"@, Json::Int(MAX_GROUPS as int)),
                        ("max_conditions_per_group"@, Json::Int(MAX_CONDITIONS_PER_GROUP as int)),
                    ],
                ),
            ),
            ("webhook_events"@, webhook_events()),
            ("verify_url"@, Json::Str(base_url + "/verify?guild="@ + guild_id)),
        ],
    )
}

/// Writes the document of a role link's configuration.
pub fn role_config_json(
    base_url: &str,
    guild_id: &str,
    role_id: &str,
    account_ref: Option<i64>,
    tree: &RuleTree,
    version: i32,
    accounts: &Vec<AccountRow>,
) -> (r: JsonValue)
    ensures
        r@ == config_document(
            base_url@,
            guild_id@,
            role_id@,
            account_ref,
            tree@,
            version,
            accounts@,
        ),
{
    let ghost doc = config_document(
        base_url@,
        guild_id@,
        role_id@,
        account_ref,
        tree@,
        version,
        accounts@,
    )->Object_0;
    let mut config = no_entries();
    put(&mut config, "stripe_account_ref", int_or_null(account_ref));
    put(&mut config, "grant_on_any_relation", JsonValue::Bool(tree.grant_on_any_relation));
    put(&mut config, "groups", groups_to_json(tree));
    proof {
        assert(entries_model(config@) =~= doc[2].1->Object_0);
    }
    let mut limits = no_entries();
    put(&mut limits, "max_groups", JsonValue::Int(MAX_GROUPS as i128));
    put(
        &mut limits,
        "max_conditions_per_group",
        JsonValue::Int(MAX_CONDITIONS_PER_GROUP as i128),
    );
    proof {
        assert(entries_model(limits@) =~= doc[7].1->Object_0);
    }
    let mut url = base_url.to_owned();
    url.append("/verify?guild=");
    url.append(guild_id);
    let mut e = no_entries();
    put(&mut e, "guild_id", text_value(guild_id));
    put(&mut e, "role_id", text_value(role_id));
    put(&mut e, "config", JsonValue::Object(config));
    put(&mut e, "rule_tree_version", JsonValue::Int(version as i128));
    put(&mut e, "accounts", accounts_array(base_url, accounts));
    put(&mut e, "targets", target_catalog());
    put(&mut e, "operators", operator_catalog());
    put(&mut e, "limits", JsonValue::Object(limits));
    put(&mut e, "webhook_events", webhook_events_json());
    put(&mut e, "verify_url", JsonValue::Str(url));
    proof {
        assert(entries_model(e@) =~= doc);
    }
    JsonValue::Object(e)
}

// ---------------------------------------------------------------------------
// Saving a configuration
// ---------------------------------------------------------------------------

/// A rule that is to be saved, with the version that it was made from.
#[derive(Debug)]
pub struct RoleConfigSaveBody {
    pub rule_tree_version: i32,
    pub stripe_account_ref: Option<i64>,
    pub rule_tree: RuleTree,
}

/// A read-only session does not write.
pub fn require_writable(access: &RoleConfigAccess) -> (r: Result<(), AppError>)
    ensures
        match r {
            Ok(_) => !access.read_only,
            Err(e) => access.read_only && e@ == ErrorModel::Forbidden(
                "This configuration is read-only while impersonating a user."@,
            ),
        },
{
    if access.read_only {
        return Err(
            AppError::Forbidden(
                "This configuration is read-only while impersonating a user.".to_owned(),
            ),
        );
    }
    Ok(())
}

/// An account that is chosen must be connected to the guild. `connected` is
/// whether it is.
pub fn require_connected(account_ref: Option<i64>, connected: bool) -> (r: Result<(), AppError>)
    ensures
        match r {
            Ok(_) => account_ref is None || connected,
            Err(e) => account_ref is Some && !connected && e@ == ErrorModel::BadRequest(
                "Selected Stripe account isn't connected to this server."@,
            ),
        },
{
    if account_ref.is_some() && !connected {
        return Err(
            AppError::BadRequest(
                "Selected Stripe account isn't connected to this server.".to_owned(),
            ),
        );
    }
    Ok(())
}

/// A rule that admits anybody needs an account.
pub open spec fn lacks_account(account_ref: Option<i64>, rule: RuleModel) -> bool {
    account_ref is None && (rule.grant_on_any_relation || rule.groups.len() > 0)
}

/// Refuses a rule that would admit somebody had it an account.
pub fn require_account(account_ref: Option<i64>, tree: &RuleTree) -> (r: Result<(), AppError>)
    ensures
        match r {
            Ok(_) => !lacks_account(account_ref, tree@),
            Err(e) => lacks_account(account_ref, tree@) && e@ == ErrorModel::BadRequest(
                "Connect a Stripe account and pick it for this rule before saving — without one it would grant the role to nobody."@,
            ),
        },
{
    if account_ref.is_none() && (tree.grant_on_any_relation || tree.groups.len() > 0) {
        return Err(
            AppError::BadRequest(
                "Connect a Stripe account and pick it for this rule before saving — without one it would grant the role to nobody.".to_owned(),
            ),
        );
    }
    Ok(())
}

/// Decides a save, given how many role links took the new rule and, where none
/// did, the version of the one that is there. A role link takes a rule only
/// while it has the version that the rule was made from.
pub fn save_outcome(rows_affected: u64, found_version: Option<i32>) -> (r: Result<(), AppError>)
    ensures
        match r {
            Ok(_) => rows_affected > 0,
            Err(e) => rows_affected == 0 && e@ == match found_version {
                None => no_such_link(),
                Some(_) => ErrorModel::StaleVersion,
            },
        },
{
    if rows_affected == 0 {
        return match found_version {
            None => Err(role_link_missing()),
            Some(_) => Err(AppError::StaleVersion),
        };
    }
    Ok(())
}

/// Answers a save.
pub fn saved_json(version: i32) -> (r: JsonValue)
    ensures
        r@ == Json::Object(
            seq![
                ("success"@, Json::Bool(true)),
                ("rule_tree_version"@, Json::Int(version as int)),
            ],
        ),
{
    let mut e = no_entries();
    put(&mut e, "success", JsonValue::Bool(true));
    put(&mut e, "rule_tree_version", JsonValue::Int(version as i128));
    proof {
        assert(entries_model(e@) =~= seq![
            ("success"@, Json::Bool(true)),
            ("rule_tree_version"@, Json::Int(version as int)),
        ]);
    }
    JsonValue::Object(e)
}

/// A rule that may be saved is one without effect, or one with an account: what
/// is saved and admits somebody can be evaluated.
pub proof fn saved_rule_can_be_evaluated(account_ref: Option<i64>, rule: RuleModel)
    requires
        !lacks_account(account_ref, rule),
        rule.grant_on_any_relation || rule.groups.len() > 0,
    ensures
        !grants_nobody(account_ref, rule),
{
}

// ---------------------------------------------------------------------------
// The preview
// ---------------------------------------------------------------------------

/// How many members a rule admits, and how many the account has.
pub open spec fn preview_document(matching: i64, linked: i64) -> Json {
    Json::Object(
        seq![
            ("available"@, Json::Bool(true)),
            ("matching"@, Json::Int(matching as int)),
            ("linked"@, Json::Int(linked as int)),
        ],
    )
}

/// Answers a preview.
pub fn preview_json(matching: i64, linked: i64) -> (r: JsonValue)
    ensures
        r@ == preview_document(matching, linked),
{
    let mut e = no_entries();
    put(&mut e, "available", JsonValue::Bool(true));
    put(&mut e, "matching", int_value(matching));
    put(&mut e, "linked", int_value(linked));
    proof {
        assert(entries_model(e@) =~= preview_document(matching, linked)->Object_0);
    }
    JsonValue::Object(e)
}

/// Answers a preview that has to wait.
pub fn preview_unavailable_json() -> (r: JsonValue)
    ensures
        r@ == Json::Object(
            seq![
                ("available"@, Json::Bool(false)),
                (
                    "reason"@,
                    Json::Str(
                        "Opt-out list temporarily unavailable; preview will work once the Auth Gateway responds."@,
                    ),
                ),
            ],
        ),
{
    let mut e = no_entries();
    put(&mut e, "available", JsonValue::Bool(false));
    put(
        &mut e,
        "reason",
        text_value(
            "Opt-out list temporarily unavailable; preview will work once the Auth Gateway responds.",
        ),
    );
    proof {
        assert(entries_model(e@) =~= seq![
            ("available"@, Json::Bool(false)),
            (
                "reason"@,
                Json::Str(
                    "Opt-out list temporarily unavailable; preview will work once the Auth Gateway responds."@,
                ),
            ),
        ]);
    }
    JsonValue::Object(e)
}

/// How a preview goes on.
#[derive(Debug, Clone, Copy, PartialEq, Eq, Structural)]
pub enum PreviewStep {
    /// Nobody is admitted.
    Nobody,
    /// Every member of this account is admitted.
    Everybody(i64),
    /// The members of this account are counted by the rule.
    Count(i64),
}

/// Decides how a preview goes on.
pub fn preview_step(account_ref: Option<i64>, tree: &RuleTree) -> (r: PreviewStep)
    ensures
        match r {
            PreviewStep::Nobody => grants_nobody(account_ref, tree@),
            PreviewStep::Everybody(a) => !grants_nobody(account_ref, tree@)
                && tree.grant_on_any_relation && account_ref == Some(a),
            PreviewStep::Count(a) => !grants_nobody(account_ref, tree@)
                && !tree.grant_on_any_relation && account_ref == Some(a),
        },
{
    match account_ref {
        None => PreviewStep::Nobody,
        Some(a) => if tree.grant_on_any_relation {
            PreviewStep::Everybody(a)
        } else if tree.groups.len() == 0 {
            PreviewStep::Nobody
        } else {
            PreviewStep::Count(a)
        },
    }
}

/// The query that counts the members that a rule admits. Its parameters are the
/// account, the members who opted out and the values of the rule's clause.
pub open spec fn count_sql(rule: RuleModel) -> Seq<char> {
    "SELECT count(*) FROM stripe_member_facts mf WHERE "@
        + "mf.account_ref = $1 AND mf.discord_id <> ALL($2::text[]) AND ("@ + rule_sql(rule, 2) + ")"@
}

/// Writes the query that counts the members that a rule admits, and the values
/// of its clause.
pub fn count_query(tree: &RuleTree) -> (r: (String, Vec<Bind>))
    requires
        2 + rule_binds(tree@).len() <= usize::MAX,
    ensures
        r.0@ == count_sql(tree@),
        binds_model(r.1@) == rule_binds(tree@),
{
    let (clause, binds) = build_rule_where(tree, 2);
    let mut out = "SELECT count(*) FROM stripe_member_facts mf WHERE ".to_owned();
    out.append("mf.account_ref = $1 AND mf.discord_id <> ALL($2::text[]) AND (");
    out.append(clause.as_str());
    out.append(")");
    (out, binds)
}

} // verus!
