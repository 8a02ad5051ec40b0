//! What is made of Stripe's objects, how its lists are walked, and how its
//! webhooks are authenticated.
use vstd::prelude::*;
use vstd::string::{StrSliceExecFns, StringExecFns};
use vstd::utf8::encode_utf8;
use crate::bytes::constant_time_eq;
use crate::clock::{clock_second, clock_showed, utc_now, Timestamp};
use crate::decode::viewed;
use crate::digest::{hmac_of, hmac_sha256, sha256, sha256_of};
use crate::error::{outcome, AppError, ErrorModel};
use crate::json::{json_document, json_get, json_str, parse_json, Json, JsonValue};
use crate::numeral::{
    decimal, decimal_i64, decimal_int, decimal_reads_back, decimal_u64, hex_encode, hex_text,
    is_digit, lemma_decimal, parse_i64, parsed_i64,
};
use crate::services::stripe_wire::{
    customer_of, customer_ref_id, moment, product_ref_id, subscription_of, ts, Expandable,
    ExpandableModel, RawAccount, RawCharge, RawChargeModel, RawCustomer, RawCustomerModel,
    RawPrice, RawPriceModel, RawProduct, RawProductModel, RawSubItemModel, RawSubscription,
    RawSubscriptionModel,
};
use crate::text::{
    cut, cut_str, lemma_cut, lemma_cut_at, lemma_pieces_at, lemma_pieces_none, has_substring,
    pieces, pieces_of, str_contains, str_eq, strip_end, stripped_end, text_of, trimmed,
};
use crate::text_map::{texts_map, TextMap};

verus! {

pub const DEFAULT_API_BASE: &'static str = "https://api.stripe.com";

/// How many objects a page of a list has at most.
pub const PAGE_LIMIT: usize = 100;

/// How many pages of a list are read at most.
pub const MAX_PAGES: usize = 2000;

/// How many seconds a webhook's time stamp may be away from the clock.
pub const WEBHOOK_TOLERANCE_SECS: i64 = 300;

// ---------------------------------------------------------------------------
// Normalized objects
// ---------------------------------------------------------------------------

/// The account behind a key.
#[derive(Debug)]
pub struct AccountInfo {
    pub account_id: String,
    pub display_name: String,
    pub country: Option<String>,
    pub livemode: bool,
}

pub struct AccountInfoModel {
    pub account_id: Seq<char>,
    pub display_name: Seq<char>,
    pub country: Option<Seq<char>>,
    pub livemode: bool,
}

impl View for AccountInfo {
    type V = AccountInfoModel;

    open spec fn view(&self) -> AccountInfoModel {
        AccountInfoModel {
            account_id: self.account_id@,
            display_name: self.display_name@,
            country: text_of(self.country),
            livemode: self.livemode,
        }
    }
}

#[derive(Debug)]
pub struct CustomerFields {
    pub id: String,
    pub email: Option<String>,
    pub name: Option<String>,
    pub country: Option<String>,
    pub currency: Option<String>,
    pub delinquent: bool,
    pub created_at: Option<Timestamp>,
    pub metadata: TextMap<String>,
    pub deleted: bool,
}

pub struct CustomerModel {
    pub id: Seq<char>,
    pub email: Option<Seq<char>>,
    pub name: Option<Seq<char>>,
    pub country: Option<Seq<char>>,
    pub currency: Option<Seq<char>>,
    pub delinquent: bool,
    pub created_at: Option<Timestamp>,
    pub metadata: Map<Seq<char>, Seq<char>>,
    pub deleted: bool,
}

impl View for CustomerFields {
    type V = CustomerModel;

    open spec fn view(&self) -> CustomerModel {
        CustomerModel {
            id: self.id@,
            email: text_of(self.email),
            name: text_of(self.name),
            country: text_of(self.country),
            currency: text_of(self.currency),
            delinquent: self.delinquent,
            created_at: self.created_at,
            metadata: texts_map(self.metadata@),
            deleted: self.deleted,
        }
    }
}

#[derive(Debug)]
pub struct SubFields {
    pub id: String,
    pub customer_id: Option<String>,
    pub status: String,
    pub price_id: Option<String>,
    pub product_id: Option<String>,
    pub unit_amount_cents: i64,
    pub currency: Option<String>,
    pub interval: Option<String>,
    pub interval_count: i32,
    pub quantity: i32,
    pub cancel_at_period_end: bool,
    pub current_period_end: Option<Timestamp>,
    pub trial_end: Option<Timestamp>,
    pub started_at: Option<Timestamp>,
    pub created_at: Option<Timestamp>,
    pub metadata: TextMap<String>,
    /// There only when the subscription came with its customer.
    pub customer: Option<CustomerFields>,
}

pub struct SubModel {
    pub id: Seq<char>,
    pub customer_id: Option<Seq<char>>,
    pub status: Seq<char>,
    pub price_id: Option<Seq<char>>,
    pub product_id: Option<Seq<char>>,
    pub unit_amount_cents: i64,
    pub currency: Option<Seq<char>>,
    pub interval: Option<Seq<char>>,
    pub interval_count: i32,
    pub quantity: i32,
    pub cancel_at_period_end: bool,
    pub current_period_end: Option<Timestamp>,
    pub trial_end: Option<Timestamp>,
    pub started_at: Option<Timestamp>,
    pub created_at: Option<Timestamp>,
    pub metadata: Map<Seq<char>, Seq<char>>,
    pub customer: Option<CustomerModel>,
}

impl View for SubFields {
    type V = SubModel;

    open spec fn view(&self) -> SubModel {
        SubModel {
            id: self.id@,
            customer_id: text_of(self.customer_id),
            status: self.status@,
            price_id: text_of(self.price_id),
            product_id: text_of(self.product_id),
            unit_amount_cents: self.unit_amount_cents,
            currency: text_of(self.currency),
            interval: text_of(self.interval),
            interval_count: self.interval_count,
            quantity: self.quantity,
            cancel_at_period_end: self.cancel_at_period_end,
            current_period_end: self.current_period_end,
            trial_end: self.trial_end,
            started_at: self.started_at,
            created_at: self.created_at,
            metadata: texts_map(self.metadata@),
            customer: viewed(self.customer),
        }
    }
}

/// A product to pick from.
#[derive(Debug)]
pub struct ProductCatalogEntry {
    pub id: String,
    pub name: String,
}

/// A price to pick from.
#[derive(Debug)]
pub struct PriceCatalogEntry {
    pub id: String,
    pub product_id: Option<String>,
    pub nickname: Option<String>,
    pub unit_amount_cents: Option<i64>,
    pub currency: Option<String>,
    pub interval: Option<String>,
}

pub struct PriceEntryModel {
    pub id: Seq<char>,
    pub product_id: Option<Seq<char>>,
    pub nickname: Option<Seq<char>>,
    pub unit_amount_cents: Option<i64>,
    pub currency: Option<Seq<char>>,
    pub interval: Option<Seq<char>>,
}

impl View for ProductCatalogEntry {
    type V = (Seq<char>, Seq<char>);

    open spec fn view(&self) -> (Seq<char>, Seq<char>) {
        (self.id@, self.name@)
    }
}

impl View for PriceCatalogEntry {
    type V = PriceEntryModel;

    open spec fn view(&self) -> PriceEntryModel {
        PriceEntryModel {
            id: self.id@,
            product_id: text_of(self.product_id),
            nickname: text_of(self.nickname),
            unit_amount_cents: self.unit_amount_cents,
            currency: text_of(self.currency),
            interval: text_of(self.interval),
        }
    }
}

// ---------------------------------------------------------------------------
// From the wire
// ---------------------------------------------------------------------------

pub open spec fn or_false(b: Option<bool>) -> bool {
    b == Some(true)
}

pub open spec fn or_int(n: Option<i64>, default: i64) -> i64 {
    match n {
        Some(v) => v,
        None => default,
    }
}

pub open spec fn first_of<T>(a: Option<T>, b: Option<T>) -> Option<T> {
    match a {
        Some(_) => a,
        None => b,
    }
}

/// What is kept of a customer.
pub open spec fn customer_fields(c: RawCustomerModel) -> CustomerModel {
    CustomerModel {
        id: c.id,
        email: c.email,
        name: c.name,
        country: match c.address {
            Some(country) => country,
            None => None,
        },
        currency: c.currency,
        delinquent: or_false(c.delinquent),
        created_at: moment(c.created),
        metadata: c.metadata,
        deleted: or_false(c.deleted),
    }
}

/// The first item of a subscription, whose plan the subscription is taken for.
pub open spec fn first_item(s: RawSubscriptionModel) -> Option<RawSubItemModel> {
    if s.items.len() == 0 {
        None
    } else {
        Some(s.items[0])
    }
}

/// The price of a subscription's first item.
pub open spec fn first_price(s: RawSubscriptionModel) -> Option<RawPriceModel> {
    match first_item(s) {
        Some(i) => i.price,
        None => None,
    }
}

pub open spec fn price_interval(p: RawPriceModel) -> Option<Seq<char>> {
    match p.recurring {
        Some(r) => r.interval,
        None => None,
    }
}

/// What is kept of a subscription. The end of its period is its own or, failing
/// that, its first item's.
pub open spec fn subscription_fields(s: RawSubscriptionModel) -> SubModel {
    let item = first_item(s);
    let price = first_price(s);
    SubModel {
        id: s.id,
        customer_id: match s.customer {
            Some(c) => Some(customer_ref_id(c)),
            None => None,
        },
        status: match s.status {
            Some(t) => t,
            None => "incomplete"@,
        },
        price_id: match price {
            Some(p) => Some(p.id),
            None => None,
        },
        product_id: match price {
            Some(p) => match p.product {
                Some(pr) => Some(product_ref_id(pr)),
                None => None,
            },
            None => None,
        },
        unit_amount_cents: match price {
            Some(p) => or_int(p.unit_amount, 0),
            None => 0,
        },
        currency: match price {
            Some(p) => p.currency,
            None => None,
        },
        interval: match price {
            Some(p) => price_interval(p),
            None => None,
        },
        interval_count: match price {
            Some(p) => match p.recurring {
                Some(r) => or_int(r.interval_count, 1) as i32,
                None => 1,
            },
            None => 1,
        },
        quantity: match item {
            Some(i) => or_int(i.quantity, 1) as i32,
            None => 1,
        },
        cancel_at_period_end: or_false(s.cancel_at_period_end),
        current_period_end: moment(
            first_of(
                s.current_period_end,
                match item {
                    Some(i) => i.current_period_end,
                    None => None,
                },
            ),
        ),
        trial_end: moment(s.trial_end),
        started_at: moment(first_of(s.start_date, s.created)),
        created_at: moment(s.created),
        metadata: s.metadata,
        customer: match s.customer {
            Some(ExpandableModel::Obj(c)) => Some(customer_fields(c)),
            _ => None,
        },
    }
}

fn flag(b: Option<bool>) -> (r: bool)
    ensures
        r == or_false(b),
{
    match b {
        Some(v) => v,
        None => false,
    }
}

impl RawCustomer {
    /// Keeps what is used of a customer.
    pub fn into_fields(self) -> (r: CustomerFields)
        ensures
            r@ == customer_fields(self@),
    {
        CustomerFields {
            country: match self.address {
                Some(a) => a.country,
                None => None,
            },
            id: self.id,
            email: self.email,
            name: self.name,
            currency: self.currency,
            delinquent: flag(self.delinquent),
            created_at: ts(self.created),
            metadata: self.metadata,
            deleted: flag(self.deleted),
        }
    }
}

/// What is read off the first item of a subscription.
struct Plan {
    price_id: Option<String>,
    product_id: Option<String>,
    unit_amount: i64,
    currency: Option<String>,
    interval: Option<String>,
    interval_count: i32,
}

fn plan_of(price: &Option<RawPrice>) -> (r: Plan)
    ensures
        match viewed(*price) {
            Some(p) => {
                &&& text_of(r.price_id) == Some(p.id)
                &&& text_of(r.product_id) == match p.product {
                    Some(pr) => Some(product_ref_id(pr)),
                    None => None,
                }
                &&& r.unit_amount == or_int(p.unit_amount, 0)
                &&& text_of(r.currency) == p.currency
                &&& text_of(r.interval) == price_interval(p)
                &&& r.interval_count == match p.recurring {
                    Some(rc) => or_int(rc.interval_count, 1) as i32,
                    None => 1,
                }
            },
            None => r.price_id is None && r.product_id is None && r.unit_amount == 0 && r.currency is None
                && r.interval is None && r.interval_count == 1,
        },
{
    match price {
        Some(p) => {
            let count: i64 = match &p.recurring {
                Some(rc) => match rc.interval_count {
                    Some(n) => n,
                    None => 1,
                },
                None => 1,
            };
            Plan {
                price_id: Some(p.id.clone()),
                product_id: match &p.product {
                    Some(pr) => Some(pr.id().to_owned()),
                    None => None,
                },
                unit_amount: match p.unit_amount {
                    Some(n) => n,
                    None => 0,
                },
                currency: p.currency.clone(),
                interval: match &p.recurring {
                    Some(rc) => rc.interval.clone(),
                    None => None,
                },
                interval_count: #[verifier::truncate]
                (count as i32),
            }
        },
        None => Plan {
            price_id: None,
            product_id: None,
            unit_amount: 0,
            currency: None,
            interval: None,
            interval_count: 1,
        },
    }
}

impl RawSubscription {
    /// Keeps what is used of a subscription.
    pub fn into_fields(self) -> (r: SubFields)
        ensures
            r@ == subscription_fields(self@),
    {
        let customer_id = match &self.customer {
            Some(c) => Some(c.id().to_owned()),
            None => None,
        };
        let (plan, quantity, item_end) = if self.items.len() > 0 {
            let item = &self.items[0];
            assert(self@.items[0] == item@);
            let n: i64 = match item.quantity {
                Some(n) => n,
                None => 1,
            };
            (
                plan_of(&item.price),
                #[verifier::truncate]
                (n as i32),
                item.current_period_end,
            )
        } else {
            (plan_of(&None), 1i32, None)
        };
        let end = match self.current_period_end {
            Some(s) => Some(s),
            None => item_end,
        };
        let start = match self.start_date {
            Some(s) => Some(s),
            None => self.created,
        };
        let customer = match self.customer {
            Some(c) => match c {
                Expandable::Obj(o) => Some((*o).into_fields()),
                Expandable::Id(_) => None,
            },
            None => None,
        };
        SubFields {
            id: self.id,
            customer_id,
            status: match self.status {
                Some(s) => s,
                None => "incomplete".to_owned(),
            },
            price_id: plan.price_id,
            product_id: plan.product_id,
            unit_amount_cents: plan.unit_amount,
            currency: plan.currency,
            interval: plan.interval,
            interval_count: plan.interval_count,
            quantity,
            cancel_at_period_end: flag(self.cancel_at_period_end),
            current_period_end: ts(end),
            trial_end: ts(self.trial_end),
            started_at: ts(start),
            created_at: ts(self.created),
            metadata: self.metadata,
            customer,
        }
    }
}

// ---------------------------------------------------------------------------
// The catalog
// ---------------------------------------------------------------------------

/// A product is shown under its name or, failing that, its id.
pub open spec fn product_entry(p: RawProductModel) -> (Seq<char>, Seq<char>) {
    (
        p.id,
        match p.name {
            Some(n) => n,
            None => p.id,
        },
    )
}

/// A price is shown under its nickname or, failing that, its product's name.
pub open spec fn price_entry(p: RawPriceModel) -> PriceEntryModel {
    PriceEntryModel {
        id: p.id,
        product_id: match p.product {
            Some(pr) => Some(product_ref_id(pr)),
            None => None,
        },
        nickname: first_of(
            p.nickname,
            match p.product {
                Some(ExpandableModel::Obj(o)) => o.name,
                _ => None,
            },
        ),
        unit_amount_cents: p.unit_amount,
        currency: p.currency,
        interval: price_interval(p),
    }
}

impl RawProduct {
    pub fn into_entry(self) -> (r: ProductCatalogEntry)
        ensures
            r@ == product_entry(self@),
    {
        let name = match self.name {
            Some(n) => n,
            None => self.id.clone(),
        };
        ProductCatalogEntry { name, id: self.id }
    }
}

impl RawPrice {
    pub fn into_entry(self) -> (r: PriceCatalogEntry)
        ensures
            r@ == price_entry(self@),
    {
        let product_id = match &self.product {
            Some(pr) => Some(pr.id().to_owned()),
            None => None,
        };
        let product_name = match self.product {
            Some(pr) => match pr {
                Expandable::Obj(o) => o.name,
                Expandable::Id(_) => None,
            },
            None => None,
        };
        PriceCatalogEntry {
            id: self.id,
            product_id,
            nickname: match self.nickname {
                Some(n) => Some(n),
                None => product_name,
            },
            unit_amount_cents: self.unit_amount,
            currency: self.currency,
            interval: match self.recurring {
                Some(rc) => rc.interval,
                None => None,
            },
        }
    }
}

// ---------------------------------------------------------------------------
// The account behind a key
// ---------------------------------------------------------------------------

/// A key for live data says so.
pub open spec fn is_live(key: Seq<char>) -> bool {
    has_substring(key, "_live_"@)
}

pub open spec fn mode_text(livemode: bool) -> Seq<char> {
    if livemode {
        "live"@
    } else {
        "test"@
    }
}

/// The id that stands for an account whose own id the key may not read: it is
/// made of the key's digest, so it is the same each time.
pub open spec fn synth_id(key: Seq<char>, livemode: bool) -> Seq<char> {
    "acct_key_"@ + mode_text(livemode) + "_"@ + hex_text(sha256_of(encode_utf8(key))).take(16)
}

/// Makes the id that stands for an account.
pub fn synth_account_id(key: &str, livemode: bool) -> (r: String)
    ensures
        r@ == synth_id(key@, livemode),
{
    let digest = hex_encode(sha256(key.as_bytes()).as_slice());
    let head = digest.as_str().substring_char(0, 16);
    proof {
        assert(head@ =~= digest@.take(16));
    }
    let mut out = "acct_key_".to_owned();
    out.append(
        if livemode {
            "live"
        } else {
            "test"
        },
    );
    out.append("_");
    out.append(head);
    out
}

/// What an account is called: the name on its dashboard, that of the business,
/// the email address or the id, whichever comes first.
pub open spec fn account_name(a: RawAccount) -> Seq<char> {
    match first_of(
        first_of(a.dashboard_name(), a.business_name()),
        first_of(text_of(a.email), text_of(a.id)),
    ) {
        Some(n) => n,
        None => "Stripe account"@,
    }
}

/// What is known of an account that the key may read.
pub open spec fn described(a: RawAccount, key: Seq<char>) -> AccountInfoModel {
    AccountInfoModel {
        account_id: match text_of(a.id) {
            Some(id) => id,
            None => synth_id(key, is_live(key)),
        },
        display_name: account_name(a),
        country: text_of(a.country),
        livemode: is_live(key),
    }
}

/// What is known of an account that the key may not read.
pub open spec fn described_by_key(key: Seq<char>) -> AccountInfoModel {
    AccountInfoModel {
        account_id: synth_id(key, is_live(key)),
        display_name: if is_live(key) {
            "Stripe account (live)"@
        } else {
            "Stripe account (test)"@
        },
        country: None,
        livemode: is_live(key),
    }
}

/// Describes an account that the key may read.
pub fn describe_account(account: RawAccount, key: &str) -> (r: AccountInfo)
    ensures
        r@ == described(account, key@),
{
    let livemode = str_contains(key, "_live_");
    let dashboard = match account.settings {
        Some(s) => match s.dashboard {
            Some(d) => d.display_name,
            None => None,
        },
        None => None,
    };
    let business = match account.business_profile {
        Some(b) => b.name,
        None => None,
    };
    let account_id = match &account.id {
        Some(id) => id.clone(),
        None => synth_account_id(key, livemode),
    };
    let display_name = match dashboard {
        Some(n) => n,
        None => match business {
            Some(n) => n,
            None => match account.email {
                Some(n) => n,
                None => match account.id {
                    Some(n) => n,
                    None => "Stripe account".to_owned(),
                },
            },
        },
    };
    AccountInfo { account_id, display_name, country: account.country, livemode }
}

/// The text for a key that may read neither the account nor the customers.
pub open spec fn rejection(reason: Seq<char>) -> Seq<char> {
    "Stripe rejected this key, or it can't read customers: "@ + reason
        + ". Create a restricted key with read access to Customers, Subscriptions, Charges, Products and Prices."@
}

/// Describes an account that the key may not read, given whether the key may
/// read the customers, which is what it is needed for.
pub fn describe_by_key(key: &str, customers: Result<(), String>) -> (r: Result<
    AccountInfo,
    AppError,
>)
    ensures
        outcome(r) == match customers {
            Ok(_) => Ok::<AccountInfoModel, ErrorModel>(described_by_key(key@)),
            Err(reason) => Err(ErrorModel::BadRequest(rejection(reason@))),
        },
{
    match customers {
        Ok(_) => {
            let livemode = str_contains(key, "_live_");
            Ok(
                AccountInfo {
                    account_id: synth_account_id(key, livemode),
                    display_name: if livemode {
                        "Stripe account (live)".to_owned()
                    } else {
                        "Stripe account (test)".to_owned()
                    },
                    country: None,
                    livemode,
                },
            )
        },
        Err(reason) => {
            let mut text = "Stripe rejected this key, or it can't read customers: ".to_owned();
            text.append(reason.as_str());
            text.append(
                ". Create a restricted key with read access to Customers, Subscriptions, Charges, Products and Prices.",
            );
            Err(AppError::BadRequest(text))
        },
    }
}

// ---------------------------------------------------------------------------
// Requests
// ---------------------------------------------------------------------------

/// Where the API is reached.
#[derive(Debug)]
pub struct StripeClient {
    pub base: String,
}

impl StripeClient {
    /// The API at an address; slashes at its end are dropped.
    pub fn new(base: String) -> (r: StripeClient)
        ensures
            r.base@ == stripped_end(base@, '/'),
    {
        StripeClient { base: strip_end(base.as_str(), '/').to_owned() }
    }

    /// The address of a path.
    pub fn url(&self, path: &str) -> (r: String)
        ensures
            r@ == self.base@ + path@,
    {
        let mut out = self.base.clone();
        out.append(path);
        out
    }
}

/// How much of an error's body is kept.
pub const SNIPPET_CHARS: usize = 400;

/// The text of a refused request: its status and the head of its body.
pub open spec fn refusal(status: Seq<char>, body: Seq<char>) -> Seq<char> {
    status + ": "@ + if body.len() <= SNIPPET_CHARS {
        body
    } else {
        body.take(SNIPPET_CHARS as int)
    }
}

/// The error of a refused request.
pub fn refused_request(status: &str, body: &str) -> (r: AppError)
    ensures
        r@ == ErrorModel::StripeApi(refusal(status@, body@)),
{
    let chars = crate::text::chars_of(body);
    let mut out = status.to_owned();
    out.append(": ");
    if chars.len() <= SNIPPET_CHARS {
        out.append(body);
    } else {
        let head = body.substring_char(0, SNIPPET_CHARS);
        proof {
            assert(head@ =~= body@.take(SNIPPET_CHARS as int));
        }
        out.append(head);
    }
    AppError::StripeApi(out)
}

/// The parameters of a request.
pub open spec fn query_model(q: Seq<(&'static str, String)>) -> Seq<(Seq<char>, Seq<char>)> {
    q.map_values(|p: (&'static str, String)| (p.0@, p.1@))
}

fn param(q: &mut Vec<(&'static str, String)>, name: &'static str, value: &str)
    ensures
        query_model(final(q)@) == query_model(old(q)@).push((name@, value@)),
{
    let p = (name, value.to_owned());
    proof {
        assert(query_model(q@.push(p)) =~= query_model(q@).push((name@, value@)));
    }
    q.push(p);
}

/// Where a list goes on: after the object with the given id.
pub open spec fn cursor_params(starting_after: Option<Seq<char>>) -> Seq<(Seq<char>, Seq<char>)> {
    match starting_after {
        Some(id) => seq![("starting_after"@, id)],
        None => Seq::empty(),
    }
}

/// The parameters for a page of all subscriptions, whatever their status, with
/// their customers and prices.
pub open spec fn subscriptions_params(starting_after: Option<Seq<char>>) -> Seq<
    (Seq<char>, Seq<char>),
> {
    seq![
        ("status"@, "all"@),
        ("limit"@, decimal(PAGE_LIMIT as nat)),
        ("expand[]"@, "data.customer"@),
        ("expand[]"@, "data.items.data.price"@),
    ] + cursor_params(starting_after)
}

/// The parameters for a page of all customers, or of all charges.
pub open spec fn page_params(starting_after: Option<Seq<char>>) -> Seq<(Seq<char>, Seq<char>)> {
    seq![("limit"@, decimal(PAGE_LIMIT as nat))] + cursor_params(starting_after)
}

pub fn subscriptions_query(starting_after: &Option<String>) -> (r: Vec<(&'static str, String)>)
    ensures
        query_model(r@) == subscriptions_params(text_of(*starting_after)),
{
    let mut q: Vec<(&'static str, String)> = Vec::new();
    proof {
        assert(query_model(q@) =~= Seq::empty());
    }
    param(&mut q, "status", "all");
    param(&mut q, "limit", decimal_u64(PAGE_LIMIT as u64).as_str());
    param(&mut q, "expand[]", "data.customer");
    param(&mut q, "expand[]", "data.items.data.price");
    match starting_after {
        Some(id) => param(&mut q, "starting_after", id.as_str()),
        None => {},
    }
    proof {
        assert(query_model(q@) =~= subscriptions_params(text_of(*starting_after)));
    }
    q
}

pub fn page_query(starting_after: &Option<String>) -> (r: Vec<(&'static str, String)>)
    ensures
        query_model(r@) == page_params(text_of(*starting_after)),
{
    let mut q: Vec<(&'static str, String)> = Vec::new();
    proof {
        assert(query_model(q@) =~= Seq::empty());
    }
    param(&mut q, "limit", decimal_u64(PAGE_LIMIT as u64).as_str());
    match starting_after {
        Some(id) => param(&mut q, "starting_after", id.as_str()),
        None => {},
    }
    proof {
        assert(query_model(q@) =~= page_params(text_of(*starting_after)));
    }
    q
}

/// The path of one subscription.
pub fn subscription_path(sub_id: &str) -> (r: String)
    ensures
        r@ == "/v1/subscriptions/"@ + sub_id@,
{
    let mut out = "/v1/subscriptions/".to_owned();
    out.append(sub_id);
    out
}

/// The parameters for one subscription with its customer and prices.
pub fn subscription_query() -> (r: Vec<(&'static str, String)>)
    ensures
        query_model(r@) == seq![
            ("expand[]"@, "customer"@),
            ("expand[]"@, "items.data.price"@),
        ],
{
    let mut q: Vec<(&'static str, String)> = Vec::new();
    proof {
        assert(query_model(q@) =~= Seq::empty());
    }
    param(&mut q, "expand[]", "customer");
    param(&mut q, "expand[]", "items.data.price");
    proof {
        assert(query_model(q@) =~= seq![
            ("expand[]"@, "customer"@),
            ("expand[]"@, "items.data.price"@),
        ]);
    }
    q
}

/// The parameters for the active products.
pub fn products_query() -> (r: Vec<(&'static str, String)>)
    ensures
        query_model(r@) == seq![("active"@, "true"@), ("limit"@, decimal(PAGE_LIMIT as nat))],
{
    let mut q: Vec<(&'static str, String)> = Vec::new();
    proof {
        assert(query_model(q@) =~= Seq::empty());
    }
    param(&mut q, "active", "true");
    param(&mut q, "limit", decimal_u64(PAGE_LIMIT as u64).as_str());
    proof {
        assert(query_model(q@) =~= seq![
            ("active"@, "true"@),
            ("limit"@, decimal(PAGE_LIMIT as nat)),
        ]);
    }
    q
}

/// The parameters for the active prices, with their products.
pub fn prices_query() -> (r: Vec<(&'static str, String)>)
    ensures
        query_model(r@) == seq![
            ("active"@, "true"@),
            ("limit"@, decimal(PAGE_LIMIT as nat)),
            ("expand[]"@, "data.product"@),
        ],
{
    let mut q = products_query();
    param(&mut q, "expand[]", "data.product");
    proof {
        assert(query_model(q@) =~= seq![
            ("active"@, "true"@),
            ("limit"@, decimal(PAGE_LIMIT as nat)),
            ("expand[]"@, "data.product"@),
        ]);
    }
    q
}

/// The walk through a list, page by page.
#[derive(Debug)]
pub struct Pager {
    /// How many pages were read.
    pub pages: usize,
    /// The id after which the next page starts.
    pub starting_after: Option<String>,
    /// Whether the list goes on.
    pub open: bool,
}

impl Pager {
    /// Another page is wanted: the list goes on and the limit is not reached.
    pub open spec fn wanted(self) -> bool {
        self.open && self.pages < MAX_PAGES
    }

    /// A walk that starts at the head of the list.
    pub fn new() -> (r: Pager)
        ensures
            r.pages == 0,
            r.starting_after is None,
            r.wanted(),
    {
        Pager { pages: 0, starting_after: None, open: true }
    }

    /// Whether another page is wanted.
    pub fn wants_page(&self) -> (r: bool)
        ensures
            r == self.wanted(),
    {
        self.open && self.pages < MAX_PAGES
    }

    /// Goes on after a page: behind its last object where the list has more, and
    /// not at all where it has not or the page was empty.
    pub fn advance(&mut self, has_more: bool, last_id: Option<String>)
        requires
            old(self).wanted(),
        ensures
            final(self).pages == old(self).pages + 1,
            final(self).open == (has_more && last_id is Some),
            text_of(final(self).starting_after) == if has_more && last_id is Some {
                text_of(last_id)
            } else {
                text_of(old(self).starting_after)
            },
    {
        self.pages = self.pages + 1;
        if has_more {
            match last_id {
                Some(id) => {
                    self.starting_after = Some(id);
                },
                None => {
                    self.open = false;
                },
            }
        } else {
            self.open = false;
        }
    }
}

/// Adds a page of subscriptions to those that were read. Gives the id of the
/// page's last one.
pub fn collect_subscriptions(out: &mut Vec<SubFields>, page: Vec<RawSubscription>) -> (r: Option<
    String,
>)
    ensures
        final(out)@.map_values(|s: SubFields| s@) == old(out)@.map_values(|s: SubFields| s@)
            + page@.map_values(|s: RawSubscription| subscription_fields(s@)),
        text_of(r) == if page@.len() == 0 {
            None
        } else {
            Some(page@.last().id@)
        },
{
    let last = if page.len() > 0 {
        Some(page[page.len() - 1].id.clone())
    } else {
        None
    };
    let ghost before = out@.map_values(|s: SubFields| s@);
    let ghost all = page@;
    let mut added: Vec<SubFields> = Vec::new();
    let mut left = page;
    while left.len() > 0
        invariant
            left@.len() <= all.len(),
            left@ == all.take(left@.len() as int),
            added@.len() == all.len() - left@.len(),
            forall|k: int|
                0 <= k < added@.len() ==> (#[trigger] added@[k])@ == subscription_fields(
                    all[all.len() - 1 - k]@,
                ),
        decreases left@.len(),
    {
        let s = left.pop().unwrap();
        added.push(s.into_fields());
    }
    let ghost tail = all.map_values(|s: RawSubscription| subscription_fields(s@));
    while added.len() > 0
        invariant
            tail == all.map_values(|s: RawSubscription| subscription_fields(s@)),
            added@.len() <= all.len(),
            forall|k: int|
                0 <= k < added@.len() ==> (#[trigger] added@[k])@ == subscription_fields(
                    all[all.len() - 1 - k]@,
                ),
            out@.map_values(|s: SubFields| s@) =~= before + tail.take(all.len() - added@.len()),
        decreases added@.len(),
    {
        let s = added.pop().unwrap();
        proof {
            assert(out@.push(s).map_values(|s: SubFields| s@) =~= out@.map_values(
                |s: SubFields| s@,
            ).push(s@));
        }
        out.push(s);
    }
    proof {
        assert(tail.take(all.len() as int) =~= tail);
    }
    last
}

/// Adds a page of customers to those that were read. Gives the id of the page's
/// last one.
pub fn collect_customers(out: &mut Vec<CustomerFields>, page: Vec<RawCustomer>) -> (r: Option<
    String,
>)
    ensures
        final(out)@.map_values(|c: CustomerFields| c@) == old(out)@.map_values(
            |c: CustomerFields| c@,
        ) + page@.map_values(|c: RawCustomer| customer_fields(c@)),
        text_of(r) == if page@.len() == 0 {
            None
        } else {
            Some(page@.last().id@)
        },
{
    let last = if page.len() > 0 {
        Some(page[page.len() - 1].id.clone())
    } else {
        None
    };
    let ghost before = out@.map_values(|c: CustomerFields| c@);
    let ghost all = page@;
    let mut added: Vec<CustomerFields> = Vec::new();
    let mut left = page;
    while left.len() > 0
        invariant
            left@.len() <= all.len(),
            left@ == all.take(left@.len() as int),
            added@.len() == all.len() - left@.len(),
            forall|k: int|
                0 <= k < added@.len() ==> (#[trigger] added@[k])@ == customer_fields(
                    all[all.len() - 1 - k]@,
                ),
        decreases left@.len(),
    {
        let c = left.pop().unwrap();
        added.push(c.into_fields());
    }
    let ghost tail = all.map_values(|c: RawCustomer| customer_fields(c@));
    while added.len() > 0
        invariant
            tail == all.map_values(|c: RawCustomer| customer_fields(c@)),
            added@.len() <= all.len(),
            forall|k: int|
                0 <= k < added@.len() ==> (#[trigger] added@[k])@ == customer_fields(
                    all[all.len() - 1 - k]@,
                ),
            out@.map_values(|c: CustomerFields| c@) =~= before + tail.take(
                all.len() - added@.len(),
            ),
        decreases added@.len(),
    {
        let c = added.pop().unwrap();
        proof {
            assert(out@.push(c).map_values(|c: CustomerFields| c@) =~= out@.map_values(
                |c: CustomerFields| c@,
            ).push(c@));
        }
        out.push(c);
    }
    proof {
        assert(tail.take(all.len() as int) =~= tail);
    }
    last
}

/// A walk from page to page reads no more pages than the limit.
pub proof fn walk_is_bounded(walk: Seq<Pager>)
    requires
        walk.len() > 0,
        walk[0].pages == 0,
        forall|i: int|
            0 <= i < walk.len() - 1 ==> (#[trigger] walk[i]).wanted() && walk[i + 1].pages
                == walk[i].pages + 1,
    ensures
        walk.len() <= MAX_PAGES + 1,
        walk.last().pages == walk.len() - 1,
    decreases walk.len(),
{
    if walk.len() > 1 {
        let before = walk.drop_last();
        assert forall|i: int| 0 <= i < before.len() - 1 implies (#[trigger] before[i]).wanted()
            && before[i + 1].pages == before[i].pages + 1 by {
            assert(walk[i].wanted());
        }
        walk_is_bounded(before);
        assert(walk[walk.len() - 2].wanted());
    }
}

// ---------------------------------------------------------------------------
// Charges
// ---------------------------------------------------------------------------

/// The customer that a charge counts for: it was paid, succeeded and was not
/// given back.
pub open spec fn counted_for(c: RawChargeModel) -> Option<Seq<char>> {
    if or_false(c.paid) && !or_false(c.refunded) && c.status == Some("succeeded"@) {
        match c.customer {
            Some(e) => Some(customer_ref_id(e)),
            None => None,
        }
    } else {
        None
    }
}

/// What a customer paid in a list of charges.
pub open spec fn spent(charges: Seq<RawChargeModel>, customer: Seq<char>) -> int
    decreases charges.len(),
{
    if charges.len() == 0 {
        0
    } else {
        spent(charges.drop_last(), customer) + if counted_for(charges.last()) == Some(customer) {
            or_int(charges.last().amount, 0) as int
        } else {
            0
        }
    }
}

/// How often a customer paid in a list of charges.
pub open spec fn payments(charges: Seq<RawChargeModel>, customer: Seq<char>) -> int
    decreases charges.len(),
{
    if charges.len() == 0 {
        0
    } else {
        payments(charges.drop_last(), customer) + if counted_for(charges.last()) == Some(customer) {
            1int
        } else {
            0
        }
    }
}

/// What each customer paid, and how often.
#[derive(Debug)]
pub struct ChargeTotals {
    pub spend: TextMap<i64>,
    pub count: TextMap<i64>,
}

pub open spec fn total_or_zero(m: Map<Seq<char>, i64>, customer: Seq<char>) -> int {
    if m.dom().contains(customer) {
        m[customer] as int
    } else {
        0
    }
}

pub open spec fn charges_model(charges: Seq<RawCharge>) -> Seq<RawChargeModel> {
    charges.map_values(|c: RawCharge| c@)
}

impl ChargeTotals {
    /// The totals are those of a list of charges: they speak of the customers
    /// with a charge that counts, and give what each paid and how often.
    pub open spec fn totals_of(self, charges: Seq<RawChargeModel>) -> bool {
        &&& self.spend@.dom() == self.count@.dom()
        &&& forall|customer: Seq<char>| #[trigger]
            self.spend@.dom().contains(customer) <==> payments(charges, customer) > 0
        &&& forall|customer: Seq<char>| #[trigger]
            self.spend@.dom().contains(customer) ==> self.spend@[customer] == spent(
                charges,
                customer,
            ) && self.count@[customer] == payments(charges, customer)
    }

    /// The sums stay numbers that an `i64` can hold while the charges are added
    /// one by one.
    pub open spec fn fits(self, charges: Seq<RawChargeModel>) -> bool {
        forall|i: int|
            0 <= i < charges.len() && counted_for(#[trigger] charges[i]) is Some ==> {
                let customer = counted_for(charges[i])->0;
                &&& i64::MIN <= total_or_zero(self.spend@, customer) + spent(
                    charges.take(i + 1),
                    customer,
                ) <= i64::MAX
                &&& total_or_zero(self.count@, customer) + payments(charges.take(i + 1), customer)
                    <= i64::MAX
            }
    }

    /// No charges.
    pub fn new() -> (r: ChargeTotals)
        ensures
            r.totals_of(Seq::empty()),
    {
        ChargeTotals { spend: TextMap::new(), count: TextMap::new() }
    }

    /// Whether a page of charges can be added.
    pub fn can_add(&self, charges: &Vec<RawCharge>) -> (r: bool)
        ensures
            r == self.fits(charges_model(charges@)),
    {
        let ghost model = charges_model(charges@);
        let mut i: usize = 0;
        while i < charges.len()
            invariant
                model == charges_model(charges@),
                i <= charges.len(),
                forall|k: int|
                    0 <= k < i && counted_for(#[trigger] model[k]) is Some ==> {
                        let customer = counted_for(model[k])->0;
                        &&& i64::MIN <= total_or_zero(self.spend@, customer) + spent(
                            model.take(k + 1),
                            customer,
                        ) <= i64::MAX
                        &&& total_or_zero(self.count@, customer) + payments(
                            model.take(k + 1),
                            customer,
                        ) <= i64::MAX
                    },
            decreases charges.len() - i,
        {
            match counts_for(&charges[i]) {
                Some(customer) => {
                    let (sum, n) = totals_before(charges, i + 1, customer);
                    let spend: i64 = match self.spend.get(customer) {
                        Some(v) => *v,
                        None => 0,
                    };
                    let count: i64 = match self.count.get(customer) {
                        Some(v) => *v,
                        None => 0,
                    };
                    assert(counted_for(model[i as int]) == Some(customer@));
                    if spend as i128 + sum < i64::MIN as i128 || spend as i128 + sum > i64::MAX as i128
                        || count as i128 + n > i64::MAX as i128 {
                        return false;
                    }
                },
                None => {},
            }
            i = i + 1;
        }
        true
    }

    /// Adds a page of charges.
    pub fn add_page(&mut self, charges: &Vec<RawCharge>)
        requires
            old(self).fits(charges_model(charges@)),
        ensures
            forall|earlier: Seq<RawChargeModel>| #[trigger]
                old(self).totals_of(earlier) ==> final(self).totals_of(
                    earlier + charges_model(charges@),
                ),
            forall|customer: Seq<char>| #[trigger]
                total_or_zero(final(self).spend@, customer) == total_or_zero(
                    old(self).spend@,
                    customer,
                ) + spent(charges_model(charges@), customer),
            forall|customer: Seq<char>| #[trigger]
                total_or_zero(final(self).count@, customer) == total_or_zero(
                    old(self).count@,
                    customer,
                ) + payments(charges_model(charges@), customer),
    {
        let ghost model = charges_model(charges@);
        let ghost start = *self;
        let mut i: usize = 0;
        proof {
            assert forall|earlier: Seq<RawChargeModel>| #[trigger]
                start.totals_of(earlier) implies self.totals_of(earlier + model.take(0)) by {
                assert(earlier + model.take(0) =~= earlier);
            }
            assert forall|customer: Seq<char>| #[trigger]
                total_or_zero(self.spend@, customer) == total_or_zero(start.spend@, customer)
                    + spent(model.take(0), customer) && total_or_zero(self.count@, customer)
                    == total_or_zero(start.count@, customer) + payments(model.take(0), customer) by {
                assert(model.take(0) =~= Seq::empty());
            }
        }
        while i < charges.len()
            invariant
                model == charges_model(charges@),
                i <= charges.len(),
                start.fits(model),
                forall|earlier: Seq<RawChargeModel>| #[trigger]
                    start.totals_of(earlier) ==> self.totals_of(earlier + model.take(i as int)),
                forall|customer: Seq<char>| #[trigger]
                    total_or_zero(self.spend@, customer) == total_or_zero(start.spend@, customer)
                        + spent(model.take(i as int), customer) && total_or_zero(
                        self.count@,
                        customer,
                    ) == total_or_zero(start.count@, customer) + payments(
                        model.take(i as int),
                        customer,
                    ),
            decreases charges.len() - i,
        {
            let ghost before = *self;
            let ghost next = model.take(i + 1);
            let ghost done = model.take(i as int);
            proof {
                assert(next.drop_last() =~= done);
                assert(next.last() == model[i as int]);
            }
            match counts_for(&charges[i]) {
                Some(customer) => {
                    let spend: i64 = match self.spend.get(customer) {
                        Some(v) => *v,
                        None => 0,
                    };
                    let count: i64 = match self.count.get(customer) {
                        Some(v) => *v,
                        None => 0,
                    };
                    let amount: i64 = match charges[i].amount {
                        Some(n) => n,
                        None => 0,
                    };
                    proof {
                        assert(counted_for(model[i as int]) == Some(customer@));
                        assert(spend == total_or_zero(before.spend@, customer@));
                        assert(count == total_or_zero(before.count@, customer@));
                    }
                    self.spend.insert(customer, spend + amount);
                    self.count.insert(customer, count + 1);
                    proof {
                        assert forall|c: Seq<char>| #[trigger]
                            total_or_zero(self.spend@, c) == total_or_zero(start.spend@, c)
                                + spent(next, c) && total_or_zero(self.count@, c)
                                == total_or_zero(start.count@, c) + payments(next, c) by {
                            assert(total_or_zero(before.spend@, c) == total_or_zero(
                                start.spend@,
                                c,
                            ) + spent(done, c));
                        }
                        assert forall|earlier: Seq<RawChargeModel>| #[trigger]
                            start.totals_of(earlier) implies self.totals_of(earlier + next) by {
                            lemma_add_counted(before, *self, earlier + done, model[i as int]);
                            assert(earlier + next =~= (earlier + done).push(model[i as int]));
                        }
                    }
                },
                None => {
                    proof {
                        assert(counted_for(model[i as int]) is None);
                        assert forall|c: Seq<char>| #[trigger]
                            total_or_zero(self.spend@, c) == total_or_zero(start.spend@, c)
                                + spent(next, c) && total_or_zero(self.count@, c)
                                == total_or_zero(start.count@, c) + payments(next, c) by {}
                        assert forall|earlier: Seq<RawChargeModel>| #[trigger]
                            start.totals_of(earlier) implies self.totals_of(earlier + next) by {
                            lemma_add_other(*self, earlier + done, model[i as int]);
                            assert(earlier + next =~= (earlier + done).push(model[i as int]));
                        }
                    }
                },
            }
            i = i + 1;
        }
        proof {
            assert(model.take(i as int) =~= model);
            assert forall|customer: Seq<char>| #[trigger]
                total_or_zero(self.count@, customer) == total_or_zero(start.count@, customer)
                    + payments(model, customer) by {
                assert(total_or_zero(self.spend@, customer) == total_or_zero(start.spend@, customer)
                    + spent(model, customer));
            }
        }
    }
}

/// Nobody paid less than never, and who never paid, paid nothing.
pub proof fn lemma_payments_nonnegative(charges: Seq<RawChargeModel>, customer: Seq<char>)
    ensures
        payments(charges, customer) >= 0,
        payments(charges, customer) == 0 ==> spent(charges, customer) == 0,
    decreases charges.len(),
{
    if charges.len() > 0 {
        lemma_payments_nonnegative(charges.drop_last(), customer);
    }
}

proof fn lemma_add_counted(
    before: ChargeTotals,
    after: ChargeTotals,
    charges: Seq<RawChargeModel>,
    c: RawChargeModel,
)
    requires
        before.totals_of(charges),
        counted_for(c) is Some,
        after.spend@ == before.spend@.insert(
            counted_for(c)->0,
            (total_or_zero(before.spend@, counted_for(c)->0) + or_int(c.amount, 0)) as i64,
        ),
        after.count@ == before.count@.insert(
            counted_for(c)->0,
            (total_or_zero(before.count@, counted_for(c)->0) + 1) as i64,
        ),
        i64::MIN <= total_or_zero(before.spend@, counted_for(c)->0) + or_int(c.amount, 0)
            <= i64::MAX,
        total_or_zero(before.count@, counted_for(c)->0) + 1 <= i64::MAX,
    ensures
        after.totals_of(charges.push(c)),
{
    let all = charges.push(c);
    assert(all.drop_last() =~= charges);
    assert(all.last() == c);
    let customer = counted_for(c)->0;
    lemma_payments_nonnegative(charges, customer);
    assert(after.spend@.dom() =~= after.count@.dom());
    assert forall|k: Seq<char>| #[trigger] after.spend@.dom().contains(k) <==> payments(all, k)
        > 0 by {
        assert(before.spend@.dom().contains(k) <==> payments(charges, k) > 0);
    }
    assert forall|k: Seq<char>| #[trigger] after.spend@.dom().contains(k) implies after.spend@[k]
        == spent(all, k) && after.count@[k] == payments(all, k) by {
        assert(before.spend@.dom().contains(k) <==> payments(charges, k) > 0);
        lemma_payments_nonnegative(charges, k);
    }
}

proof fn lemma_add_other(totals: ChargeTotals, charges: Seq<RawChargeModel>, c: RawChargeModel)
    requires
        totals.totals_of(charges),
        counted_for(c) is None,
    ensures
        totals.totals_of(charges.push(c)),
{
    let all = charges.push(c);
    assert(all.drop_last() =~= charges);
    assert(all.last() == c);
    assert forall|k: Seq<char>| #[trigger] totals.spend@.dom().contains(k) <==> payments(all, k)
        > 0 by {
        assert(payments(all, k) == payments(charges, k));
    }
    assert forall|k: Seq<char>| #[trigger] totals.spend@.dom().contains(k) implies totals.spend@[k]
        == spent(all, k) && totals.count@[k] == payments(all, k) by {
        assert(payments(all, k) == payments(charges, k));
    }
}

fn counts_for(c: &RawCharge) -> (r: Option<&str>)
    ensures
        match r {
            Some(id) => counted_for(c@) == Some(id@),
            None => counted_for(c@) is None,
        },
{
    if !flag(c.paid) || flag(c.refunded) {
        return None;
    }
    match &c.status {
        Some(s) => if !str_eq(s.as_str(), "succeeded") {
            return None;
        },
        None => return None,
    }
    match &c.customer {
        Some(e) => Some(e.id()),
        None => None,
    }
}

/// What a customer paid in the first charges of a page, and how often.
fn totals_before(charges: &Vec<RawCharge>, n: usize, customer: &str) -> (r: (i128, i128))
    requires
        n <= charges@.len(),
    ensures
        r.0 == spent(charges_model(charges@).take(n as int), customer@),
        r.1 == payments(charges_model(charges@).take(n as int), customer@),
        i64::MIN * n <= r.0 <= i64::MAX * n,
        0 <= r.1 <= n,
{
    let ghost model = charges_model(charges@);
    let mut sum: i128 = 0;
    let mut count: i128 = 0;
    let mut i: usize = 0;
    proof {
        assert(model.take(0) =~= Seq::empty());
    }
    while i < n
        invariant
            n <= charges@.len(),
            i <= n,
            model == charges_model(charges@),
            sum == spent(model.take(i as int), customer@),
            count == payments(model.take(i as int), customer@),
            i64::MIN * i <= sum <= i64::MAX * i,
            0 <= count <= i,
        decreases n - i,
    {
        proof {
            let next = model.take(i + 1);
            assert(next.drop_last() =~= model.take(i as int));
            assert(next.last() == model[i as int]);
        }
        match counts_for(&charges[i]) {
            Some(id) => {
                if str_eq(id, customer) {
                    let amount: i64 = match charges[i].amount {
                        Some(n) => n,
                        None => 0,
                    };
                    sum = sum + amount as i128;
                    count = count + 1;
                }
            },
            None => {},
        }
        i = i + 1;
    }
    (sum, count)
}

// ---------------------------------------------------------------------------
// Webhooks
// ---------------------------------------------------------------------------

/// The time in a signature header: that of its last part `t=…`, where that is a
/// number.
pub open spec fn header_time(parts: Seq<Seq<char>>) -> Option<i64>
    decreases parts.len(),
{
    if parts.len() == 0 {
        None
    } else {
        match cut(parts.last(), '=') {
            Some((key, value)) => if key == "t"@ {
                parsed_i64(trimmed(value))
            } else {
                header_time(parts.drop_last())
            },
            None => header_time(parts.drop_last()),
        }
    }
}

/// The signatures in a signature header: those of its parts `v1=…`.
pub open spec fn header_signatures(parts: Seq<Seq<char>>) -> Seq<Seq<char>>
    decreases parts.len(),
{
    if parts.len() == 0 {
        Seq::empty()
    } else {
        match cut(parts.last(), '=') {
            Some((key, value)) => if key == "v1"@ {
                header_signatures(parts.drop_last()).push(trimmed(value))
            } else {
                header_signatures(parts.drop_last())
            },
            None => header_signatures(parts.drop_last()),
        }
    }
}

/// What a webhook signs: the time, a full stop and the payload.
pub open spec fn signed_bytes(t: i64, payload: Seq<u8>) -> Seq<u8> {
    encode_utf8(decimal_int(t as int)) + seq!['.' as u8] + payload
}

/// The signature of a webhook.
pub open spec fn webhook_signature(secret: Seq<char>, t: i64, payload: Seq<u8>) -> Seq<char> {
    hex_text(hmac_of(encode_utf8(secret), signed_bytes(t, payload)))
}

/// The header of a webhook is good at the given Unix second: it has a time
/// within the tolerance and, among its signatures, the one of that time and the
/// payload.
pub open spec fn webhook_accepted(
    payload: Seq<u8>,
    header: Seq<char>,
    secret: Seq<char>,
    tolerance: i64,
    now: i64,
) -> bool {
    let parts = pieces(header, ',');
    match header_time(parts) {
        Some(t) => {
            &&& -tolerance <= now - t <= tolerance
            &&& header_signatures(parts).contains(webhook_signature(secret, t, payload))
        },
        None => false,
    }
}

/// Decides a webhook's header at the given Unix second.
pub fn verify_webhook_signature_at(
    payload: &[u8],
    sig_header: &str,
    secret: &str,
    tolerance_secs: i64,
    now_unix: i64,
) -> (r: bool)
    ensures
        r == webhook_accepted(payload@, sig_header@, secret@, tolerance_secs, now_unix),
{
    let parts = pieces_of(sig_header, ',');
    let ghost texts = parts@.map_values(|p: &str| p@);
    let mut timestamp: Option<i64> = None;
    let mut signatures: Vec<&str> = Vec::new();
    let mut i: usize = 0;
    while i < parts.len()
        invariant
            texts == parts@.map_values(|p: &str| p@),
            i <= parts.len(),
            timestamp == header_time(texts.take(i as int)),
            signatures@.map_values(|p: &str| p@) =~= header_signatures(texts.take(i as int)),
        decreases parts.len() - i,
    {
        proof {
            let next = texts.take(i + 1);
            assert(next.drop_last() =~= texts.take(i as int));
            assert(next.last() == parts@[i as int]@);
            reveal_strlit("t");
            assert("t"@.len() == 1);
            reveal_strlit("v1");
            assert("v1"@.len() == 2);
        }
        match cut_str(parts[i], '=') {
            Some((key, value)) => {
                if str_eq(key, "t") {
                    timestamp = parse_i64(value.trim());
                } else if str_eq(key, "v1") {
                    signatures.push(value.trim());
                }
            },
            None => {},
        }
        i = i + 1;
    }
    proof {
        assert(texts.take(i as int) =~= texts);
    }
    let t = match timestamp {
        Some(t) => t,
        None => return false,
    };
    let age: i128 = now_unix as i128 - t as i128;
    if age > tolerance_secs as i128 || age < -(tolerance_secs as i128) {
        return false;
    }
    let numeral = decimal_i64(t);
    let mut signed = crate::bytes::copy_range(
        numeral.as_str().as_bytes(),
        0,
        numeral.as_str().as_bytes().len(),
    );
    proof {
        assert(signed@ =~= encode_utf8(decimal_int(t as int)));
    }
    signed.push(46);
    let ghost head = signed@;
    let mut k: usize = 0;
    while k < payload.len()
        invariant
            k <= payload.len(),
            signed@ =~= head + payload@.take(k as int),
        decreases payload.len() - k,
    {
        signed.push(payload[k]);
        k = k + 1;
    }
    proof {
        assert(signed@ =~= signed_bytes(t, payload@));
    }
    let expected = hex_encode(hmac_sha256(secret.as_bytes(), signed.as_slice()).as_slice());
    let ghost wanted = header_signatures(texts);
    let mut j: usize = 0;
    while j < signatures.len()
        invariant
            j <= signatures.len(),
            wanted == header_signatures(texts),
            texts == pieces(sig_header@, ','),
            header_time(texts) == Some(t),
            -tolerance_secs <= now_unix - t <= tolerance_secs,
            expected@ == webhook_signature(secret@, t, payload@),
            signatures@.map_values(|p: &str| p@) =~= wanted,
            forall|m: int| 0 <= m < j ==> wanted[m] != expected@,
        decreases signatures.len() - j,
    {
        proof {
            vstd::utf8::encode_utf8_decode_utf8(signatures@[j as int]@);
            vstd::utf8::encode_utf8_decode_utf8(expected@);
            assert(wanted[j as int] == signatures@[j as int]@);
        }
        if constant_time_eq(signatures[j].as_bytes(), expected.as_str().as_bytes()) {
            return true;
        }
        j = j + 1;
    }
    false
}

/// Decides a webhook's header now: whether one of its signatures is the HMAC of
/// its time and the payload under the secret, and its time is within the
/// tolerance.
pub fn verify_webhook_signature(
    payload: &[u8],
    sig_header: &str,
    secret: &str,
    tolerance_secs: i64,
) -> (r: bool)
    ensures
        exists|now: Timestamp| #[trigger]
            clock_showed(now) && clock_second(now.secs) && r == webhook_accepted(
                payload@,
                sig_header@,
                secret@,
                tolerance_secs,
                now.secs,
            ),
{
    let now = utc_now();
    assert(clock_showed(now));
    verify_webhook_signature_at(payload, sig_header, secret, tolerance_secs, now.secs)
}

/// A header without a time, or with one outside the tolerance, is refused
/// whatever signatures it has, and so is one without a signature.
pub proof fn stale_webhook_is_refused(
    payload: Seq<u8>,
    header: Seq<char>,
    secret: Seq<char>,
    tolerance: i64,
    now: i64,
)
    requires
        (header_time(pieces(header, ',')) matches Some(t) ==> now - t > tolerance || t - now
            > tolerance) || header_signatures(pieces(header, ',')).len() == 0,
    ensures
        !webhook_accepted(payload, header, secret, tolerance, now),
{
}

/// A webhook that was accepted is not accepted again once twice the tolerance
/// has passed.
pub proof fn replayed_webhook_is_refused(
    payload: Seq<u8>,
    header: Seq<char>,
    secret: Seq<char>,
    tolerance: i64,
    now: i64,
    later: i64,
)
    requires
        webhook_accepted(payload, header, secret, tolerance, now),
        later - now > 2 * tolerance,
    ensures
        !webhook_accepted(payload, header, secret, tolerance, later),
{
}

proof fn lemma_trimmed_solid(s: Seq<char>)
    requires
        forall|i: int| 0 <= i < s.len() ==> !crate::text::white_space(#[trigger] s[i]),
    ensures
        trimmed(s) == s,
{
    if s.len() > 0 {
        assert(!crate::text::white_space(s[0]));
        assert(!crate::text::white_space(s[s.len() - 1]));
    }
}

proof fn lemma_numeral_chars(n: int, i: int)
    requires
        0 <= i < decimal_int(n).len(),
    ensures
        decimal_int(n)[i] == '-' || is_digit(decimal_int(n)[i]),
{
    let m: nat = if n < 0 {
        (-n) as nat
    } else {
        n as nat
    };
    lemma_decimal(m);
    if n < 0 {
        if i > 0 {
            assert(decimal_int(n)[i] == decimal(m)[i - 1]);
            assert(is_digit(decimal(m)[i - 1]));
        }
    } else {
        assert(is_digit(decimal(m)[i]));
    }
}

proof fn lemma_hex_chars(bytes: Seq<u8>, i: int)
    requires
        0 <= i < hex_text(bytes).len(),
    ensures
        is_digit(hex_text(bytes)[i]) || 'a' <= hex_text(bytes)[i] <= 'f',
{
    let b = bytes[i / 2] as int;
    assert(0 <= b / 16 < 16);
    assert(0 <= b % 16 < 16);
}

/// A header with the time and the signature that Stripe makes is accepted while
/// the time is within the tolerance, whatever signatures stand before the good
/// one.
pub proof fn signed_webhook_is_accepted(
    payload: Seq<u8>,
    secret: Seq<char>,
    t: i64,
    others: Seq<char>,
    tolerance: i64,
    now: i64,
)
    requires
        -tolerance <= now - t <= tolerance,
        forall|i: int|
            0 <= i < pieces(others, ',').len() ==> !(cut(#[trigger] pieces(others, ',')[i], '=')
                matches Some((k, _)) && k == "t"@),
    ensures
        webhook_accepted(
            payload,
            "t="@ + decimal_int(t as int) + ",v1="@ + webhook_signature(secret, t, payload),
            secret,
            tolerance,
            now,
        ),
        webhook_accepted(
            payload,
            "t="@ + decimal_int(t as int) + ","@ + (others + ",v1="@) + webhook_signature(
                secret,
                t,
                payload,
            ),
            secret,
            tolerance,
            now,
        ),
{
    let sig = webhook_signature(secret, t, payload);
    let numeral = decimal_int(t as int);
    reveal_strlit("t=");
    reveal_strlit(",v1=");
    reveal_strlit(",");
    reveal_strlit("t");
    reveal_strlit("v1");
    let time_part = seq!['t', '='] + numeral;
    let sig_part = seq!['v', '1', '='] + sig;
    assert forall|i: int| 0 <= i < numeral.len() implies numeral[i] != ',' && numeral[i] != '='
        && !crate::text::white_space(#[trigger] numeral[i]) by {
        lemma_numeral_chars(t as int, i);
    }
    assert forall|i: int| 0 <= i < sig.len() implies sig[i] != ',' && sig[i] != '='
        && !crate::text::white_space(#[trigger] sig[i]) by {
        lemma_hex_chars(hmac_of(encode_utf8(secret), signed_bytes(t, payload)), i);
    }
    lemma_trimmed_solid(numeral);
    lemma_trimmed_solid(sig);
    decimal_reads_back(t);
    assert(!time_part.contains(',')) by {
        assert forall|i: int| 0 <= i < time_part.len() implies time_part[i] != ',' by {
            if i >= 2 {
                assert(time_part[i] == numeral[i - 2]);
            }
        }
    }
    assert(!sig_part.contains(',')) by {
        assert forall|i: int| 0 <= i < sig_part.len() implies sig_part[i] != ',' by {
            if i >= 3 {
                assert(sig_part[i] == sig[i - 3]);
            }
        }
    }
    lemma_cut_at(seq!['t'], '=', numeral);
    assert(seq!['t'] + seq!['='] + numeral =~= time_part);
    assert("t"@ =~= seq!['t']);
    lemma_cut_at(seq!['v', '1'], '=', sig);
    assert(seq!['v', '1'] + seq!['='] + sig =~= sig_part);
    assert("v1"@ =~= seq!['v', '1']);
    assert("v1"@.len() == 2 && "t"@.len() == 1);
    // One signature.
    let header = "t="@ + numeral + ",v1="@ + sig;
    assert(header =~= time_part + seq![','] + sig_part);
    lemma_pieces_at(time_part, ',', sig_part);
    lemma_pieces_none(sig_part, ',');
    let two = seq![time_part] + seq![sig_part];
    assert(pieces(header, ',') == two);
    assert(two.drop_last() =~= seq![time_part]);
    assert(two.last() == sig_part);
    reveal_with_fuel(header_time, 3);
    reveal_with_fuel(header_signatures, 3);
    assert(seq![time_part].last() == time_part);
    assert(header_time(two) == Some(t));
    assert(header_signatures(two).last() == sig);
    assert(header_signatures(two).contains(sig));
    // Other parts between the time and the signature.
    let header2 = "t="@ + numeral + ","@ + (others + ",v1="@) + sig;
    let rest = others + seq![','] + sig_part;
    assert(header2 =~= time_part + seq![','] + rest);
    lemma_pieces_at(time_part, ',', rest);
    lemma_pieces_append(others, ',', sig_part);
    let between = pieces(others, ',');
    let all = seq![time_part] + (between.push(sig_part));
    assert(pieces(header2, ',') =~= all);
    assert(all.last() == sig_part);
    assert(all.drop_last() =~= seq![time_part] + between);
    lemma_time_first(time_part, between, t);
    assert(header_time(all) == header_time(all.drop_last()));
    assert(header_signatures(all).last() == sig);
    assert(header_signatures(all).contains(sig));
}

/// Appending a part without the separator appends one piece.
proof fn lemma_pieces_append(s: Seq<char>, sep: char, last: Seq<char>)
    requires
        !last.contains(sep),
    ensures
        pieces(s + seq![sep] + last, sep) == pieces(s, sep).push(last),
    decreases s.len(),
{
    lemma_cut(s, sep);
    match cut(s, sep) {
        None => {
            lemma_pieces_at(s, sep, last);
            lemma_pieces_none(last, sep);
            lemma_pieces_none(s, sep);
            assert(seq![s] + seq![last] =~= seq![s].push(last));
        },
        Some((a, b)) => {
            lemma_pieces_append(b, sep, last);
            lemma_pieces_at(a, sep, b);
            let rest = b + seq![sep] + last;
            lemma_pieces_at(a, sep, rest);
            assert(s + seq![sep] + last =~= a + seq![sep] + rest);
            assert(seq![a] + pieces(b, sep).push(last) =~= (seq![a] + pieces(b, sep)).push(last));
        },
    }
}

/// Parts without a time do not change the time that came first.
proof fn lemma_time_first(time_part: Seq<char>, between: Seq<Seq<char>>, t: i64)
    requires
        header_time(seq![time_part]) == Some(t),
        forall|i: int|
            0 <= i < between.len() ==> !(cut(#[trigger] between[i], '=') matches Some((k, _)) && k
                == "t"@),
    ensures
        header_time(seq![time_part] + between) == Some(t),
    decreases between.len(),
{
    let all = seq![time_part] + between;
    if between.len() == 0 {
        assert(all =~= seq![time_part]);
    } else {
        let before = between.drop_last();
        assert forall|i: int| 0 <= i < before.len() implies !(cut(#[trigger] before[i], '=')
            matches Some((k, _)) && k == "t"@) by {
            assert(before[i] == between[i]);
        }
        lemma_time_first(time_part, before, t);
        assert(all.drop_last() =~= seq![time_part] + before);
        assert(all.last() == between[between.len() - 1]);
    }
}

/// The id, the type and the object of an event.
pub open spec fn event_of(doc: Json) -> Option<(Seq<char>, Seq<char>, Json)> {
    let id = match json_get(doc, "id"@) {
        Some(v) => json_str(v),
        None => None,
    };
    let kind = match json_get(doc, "type"@) {
        Some(v) => json_str(v),
        None => None,
    };
    let object = match json_get(doc, "data"@) {
        Some(d) => json_get(d, "object"@),
        None => None,
    };
    match (id, kind, object) {
        (Some(i), Some(k), Some(o)) => Some((i, k, o)),
        _ => None,
    }
}

/// The view of an event that was read.
pub open spec fn event_view(r: Option<(String, String, JsonValue)>) -> Option<
    (Seq<char>, Seq<char>, Json),
> {
    match r {
        Some((id, kind, object)) => Some((id@, kind@, object@)),
        None => None,
    }
}

/// Takes an event apart.
pub fn event_envelope(doc: &JsonValue) -> (r: Option<(String, String, JsonValue)>)
    ensures
        event_view(r) == event_of(doc@),
{
    let id = doc.get("id")?.as_str()?;
    let kind = doc.get("type")?.as_str()?;
    let object = doc.get("data")?.get("object")?;
    Some((id.to_owned(), kind.to_owned(), object.copy()))
}

/// Reads a webhook's payload as an event.
pub fn parse_event(payload: &[u8]) -> (r: Option<(String, String, JsonValue)>)
    ensures
        event_view(r) == match json_document(payload@) {
            Some(doc) => event_of(doc),
            None => None,
        },
{
    match parse_json(payload) {
        Some(doc) => event_envelope(&doc),
        None => None,
    }
}

/// Reads a subscription out of an event.
pub fn parse_subscription_object(object: &JsonValue) -> (r: Option<SubFields>)
    ensures
        viewed(r) == match subscription_of(object@) {
            Some(s) => Some(subscription_fields(s)),
            None => None,
        },
{
    match RawSubscription::from_json(object) {
        Some(raw) => Some(raw.into_fields()),
        None => None,
    }
}

/// Reads a customer out of an event.
pub fn parse_customer_object(object: &JsonValue) -> (r: Option<CustomerFields>)
    ensures
        viewed(r) == match customer_of(object@) {
            Some(c) => Some(customer_fields(c)),
            None => None,
        },
{
    match RawCustomer::from_json(object) {
        Some(raw) => Some(raw.into_fields()),
        None => None,
    }
}

} // verus!
