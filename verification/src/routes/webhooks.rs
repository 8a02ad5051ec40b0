//! The webhook endpoint.
//!
//! A delivery is authenticated by its signature, recorded once, and turned into
//! a change of the stored records.
use vstd::prelude::*;
use crate::clock::{clock_second, clock_showed, utc_now, Timestamp};
use crate::decode::viewed;
use crate::json::{
    entries_model, json_bool, json_document, json_get, json_i64, json_str, Json, JsonValue,
};
use crate::services::ingest::{resolve_from_meta, resolved};
use crate::services::stripe::{
    customer_fields, event_of, parse_customer_object, parse_event, parse_subscription_object,
    subscription_fields, verify_webhook_signature_at, webhook_accepted, CustomerFields,
    CustomerModel, SubFields, SubModel, WEBHOOK_TOLERANCE_SECS,
};
use crate::services::stripe_wire::{customer_of, subscription_of};
use crate::tasks::reconcile::{decrypt_key, key_text};
use crate::text::{slice_text, str_eq, text_of};
use crate::text_map::{texts_map, TextMap};

verus! {

// ---------------------------------------------------------------------------
// Accepting a delivery
// ---------------------------------------------------------------------------

/// The answer to a delivery: a status and a text.
#[derive(Debug)]
pub struct Reply {
    pub status: u16,
    pub text: &'static str,
}

impl View for Reply {
    type V = (int, Seq<char>);

    open spec fn view(&self) -> (int, Seq<char>) {
        (self.status as int, self.text@)
    }
}

fn reply(status: u16, text: &'static str) -> (r: Reply)
    ensures
        r@ == (status as int, text@),
{
    Reply { status, text }
}

/// What the search for the account of a delivery gave.
#[derive(Debug)]
pub enum AccountLookup {
    /// The search failed.
    Failed,
    /// There is no such account.
    Unknown,
    /// The account, with its encrypted signing secret where it has one.
    Found(Option<Vec<u8>>),
}

/// An event that was authenticated.
#[derive(Debug)]
pub struct Event {
    pub id: String,
    pub kind: String,
    pub object: JsonValue,
}

impl View for Event {
    type V = (Seq<char>, Seq<char>, Json);

    open spec fn view(&self) -> (Seq<char>, Seq<char>, Json) {
        (self.id@, self.kind@, self.object@)
    }
}

/// What becomes of a delivery to an account with a signing secret.
pub open spec fn signed_delivery(
    secret_enc: Seq<u8>,
    session_secret: Seq<char>,
    signature: Option<Seq<char>>,
    body: Seq<u8>,
    now: i64,
) -> Result<(Seq<char>, Seq<char>, Json), (int, Seq<char>)> {
    match key_text(session_secret, secret_enc) {
        Err(_) => Err((500, "secret decrypt failed"@)),
        Ok(secret) => if signature is None || signature->0.len() == 0 {
            Err((400, "missing signature"@))
        } else if !webhook_accepted(
            body,
            signature->0,
            secret,
            WEBHOOK_TOLERANCE_SECS,
            now,
        ) {
            Err((401, "bad signature"@))
        } else {
            match json_document(body) {
                Some(doc) => match event_of(doc) {
                    Some(e) => Ok(e),
                    None => Err((400, "bad event body"@)),
                },
                None => Err((400, "bad event body"@)),
            }
        },
    }
}

/// What becomes of a delivery: an authenticated event, or an answer.
pub open spec fn delivery(
    account: AccountLookup,
    session_secret: Seq<char>,
    signature: Option<Seq<char>>,
    body: Seq<u8>,
    now: i64,
) -> Result<(Seq<char>, Seq<char>, Json), (int, Seq<char>)> {
    match account {
        AccountLookup::Failed => Err((500, "db error"@)),
        AccountLookup::Unknown => Err((200, "unknown account"@)),
        AccountLookup::Found(None) => Err((400, "no webhook secret configured"@)),
        AccountLookup::Found(Some(enc)) => signed_delivery(
            enc@,
            session_secret,
            signature,
            body,
            now,
        ),
    }
}

/// The view of what became of a delivery.
pub open spec fn delivery_view(r: Result<Event, Reply>) -> Result<
    (Seq<char>, Seq<char>, Json),
    (int, Seq<char>),
> {
    match r {
        Ok(e) => Ok(e@),
        Err(a) => Err(a@),
    }
}

/// Authenticates a delivery at the given Unix second.
pub fn authenticate_at(
    account: &AccountLookup,
    session_secret: &str,
    signature: Option<&str>,
    body: &[u8],
    now_unix: i64,
) -> (r: Result<Event, Reply>)
    ensures
        delivery_view(r) == delivery(
            *account,
            session_secret@,
            slice_text(signature),
            body@,
            now_unix,
        ),
{
    let enc = match account {
        AccountLookup::Failed => return Err(reply(500, "db error")),
        AccountLookup::Unknown => return Err(reply(200, "unknown account")),
        AccountLookup::Found(secret) => match secret {
            Some(enc) => enc,
            None => return Err(reply(400, "no webhook secret configured")),
        },
    };
    let secret = match decrypt_key(session_secret, enc.as_slice()) {
        Ok(s) => s,
        Err(_) => return Err(reply(500, "secret decrypt failed")),
    };
    let header = match signature {
        Some(h) => h,
        None => return Err(reply(400, "missing signature")),
    };
    proof {
        reveal_strlit("");
        if header@ == ""@ {
            assert(header@.len() == 0);
        }
        if header@.len() == 0 {
            assert(header@ =~= ""@);
        }
    }
    if str_eq(header, "") {
        return Err(reply(400, "missing signature"));
    }
    if !verify_webhook_signature_at(
        body,
        header,
        secret.as_str(),
        WEBHOOK_TOLERANCE_SECS,
        now_unix,
    ) {
        return Err(reply(401, "bad signature"));
    }
    match parse_event(body) {
        Some((id, kind, object)) => Ok(Event { id, kind, object }),
        None => Err(reply(400, "bad event body")),
    }
}

/// Authenticates a delivery now.
pub fn authenticate(
    account: &AccountLookup,
    session_secret: &str,
    signature: Option<&str>,
    body: &[u8],
) -> (r: Result<Event, Reply>)
    ensures
        exists|now: Timestamp| #[trigger]
            clock_showed(now) && clock_second(now.secs) && delivery_view(r) == delivery(
                *account,
                session_secret@,
                slice_text(signature),
                body@,
                now.secs,
            ),
{
    let now = utc_now();
    assert(clock_showed(now));
    authenticate_at(account, session_secret, signature, body, now.secs)
}

/// What recording a delivery gave.
#[derive(Debug, Clone, Copy, PartialEq, Eq, Structural)]
pub enum Recorded {
    /// It could not be recorded.
    Failed,
    /// It was recorded before.
    Duplicate,
    /// It is recorded now.
    New,
}

/// What comes after a delivery was recorded: the account's key, with which it is
/// applied, or an answer. A delivery that was recorded before is acknowledged
/// and not applied again.
pub open spec fn recorded_delivery(
    recorded: Recorded,
    session_secret: Seq<char>,
    api_key_enc: Seq<u8>,
) -> Result<Seq<char>, (int, Seq<char>)> {
    match recorded {
        Recorded::Failed => Err((500, "db error"@)),
        Recorded::Duplicate => Err((200, "duplicate ignored"@)),
        Recorded::New => match key_text(session_secret, api_key_enc) {
            Ok(key) => Ok(key),
            Err(_) => Err((500, "key decrypt failed"@)),
        },
    }
}

/// Goes on after a delivery was recorded.
pub fn after_recording(recorded: Recorded, session_secret: &str, api_key_enc: &[u8]) -> (r: Result<
    String,
    Reply,
>)
    ensures
        match r {
            Ok(key) => recorded_delivery(recorded, session_secret@, api_key_enc@) == Ok::<
                Seq<char>,
                (int, Seq<char>),
            >(key@),
            Err(a) => recorded_delivery(recorded, session_secret@, api_key_enc@) == Err::<
                Seq<char>,
                (int, Seq<char>),
            >(a@),
        },
{
    match recorded {
        Recorded::Failed => Err(reply(500, "db error")),
        Recorded::Duplicate => Err(reply(200, "duplicate ignored")),
        Recorded::New => match decrypt_key(session_secret, api_key_enc) {
            Ok(key) => Ok(key),
            Err(_) => Err(reply(500, "key decrypt failed")),
        },
    }
}

/// The end of a delivery.
#[derive(Debug)]
pub struct Ending {
    pub reply: Reply,
    /// The record is to be taken back, so that the delivery is applied when it
    /// comes again.
    pub reopen: bool,
    /// The facts and roles of the member that was affected are to be renewed.
    pub renew: Option<String>,
}

/// Ends a delivery whose event was applied, or could not be.
pub fn after_applying(applied: Result<Option<String>, ()>) -> (r: Ending)
    ensures
        match applied {
            Ok(member) => r.reply@ == (200int, "ok"@) && !r.reopen && text_of(r.renew) == text_of(
                member,
            ),
            Err(_) => r.reply@ == (500int, "apply failed"@) && r.reopen && r.renew is None,
        },
{
    match applied {
        Ok(member) => Ending { reply: reply(200, "ok"), reopen: false, renew: member },
        Err(_) => Ending { reply: reply(500, "apply failed"), reopen: true, renew: None },
    }
}

/// No event comes of a delivery whose signature is missing or not good. Where the
/// account has a secret to check it with, the answer says which of the two it is.
pub proof fn unsigned_delivery_is_refused(
    account: AccountLookup,
    session_secret: Seq<char>,
    signature: Option<Seq<char>>,
    body: Seq<u8>,
    now: i64,
)
    requires
        account matches AccountLookup::Found(Some(enc)) ==> match key_text(session_secret, enc@) {
            Ok(secret) => signature matches Some(header) ==> !webhook_accepted(
                body,
                header,
                secret,
                WEBHOOK_TOLERANCE_SECS,
                now,
            ),
            Err(_) => true,
        },
    ensures
        delivery(account, session_secret, signature, body, now) is Err,
        account matches AccountLookup::Found(Some(enc)) ==> key_text(session_secret, enc@) is Ok
            ==> delivery(account, session_secret, signature, body, now)->Err_0 == if signature is None
            || signature->0.len() == 0 {
            (400int, "missing signature"@)
        } else {
            (401int, "bad signature"@)
        },
{
}

// ---------------------------------------------------------------------------
// Applying an event
// ---------------------------------------------------------------------------

/// What an event changes.
#[derive(Debug)]
pub enum EventAction {
    /// Nothing: the event is only recorded.
    Ignore,
    /// The subscription is stored.
    StoreSubscription(SubFields),
    /// The customer is stored.
    StoreCustomer(CustomerFields),
    /// The customer was deleted.
    DropCustomer(DroppedCustomer),
    /// The customer paid an amount.
    CountCharge(String, i64),
    /// The subscription is fetched and stored; a checkout's reference comes with
    /// it.
    FetchSubscription(String, Option<String>),
}

/// A customer that was deleted.
#[derive(Debug)]
pub struct DroppedCustomer {
    /// The id under which the member's row is looked up before it goes.
    pub customer_id: Option<String>,
    /// The member that the event's metadata give, should no row do so.
    pub member_by_metadata: Option<String>,
    /// The customer, as far as the event can be read.
    pub customer: Option<CustomerFields>,
}

pub enum ActionModel {
    Ignore,
    StoreSubscription(SubModel),
    StoreCustomer(CustomerModel),
    DropCustomer(Option<Seq<char>>, Option<Seq<char>>, Option<CustomerModel>),
    CountCharge(Seq<char>, i64),
    FetchSubscription(Seq<char>, Option<Seq<char>>),
}

impl View for EventAction {
    type V = ActionModel;

    open spec fn view(&self) -> ActionModel {
        match self {
            EventAction::Ignore => ActionModel::Ignore,
            EventAction::StoreSubscription(s) => ActionModel::StoreSubscription(s@),
            EventAction::StoreCustomer(c) => ActionModel::StoreCustomer(c@),
            EventAction::DropCustomer(d) => ActionModel::DropCustomer(
                text_of(d.customer_id),
                text_of(d.member_by_metadata),
                viewed(d.customer),
            ),
            EventAction::CountCharge(id, n) => ActionModel::CountCharge(id@, *n),
            EventAction::FetchSubscription(id, reference) => ActionModel::FetchSubscription(
                id@,
                text_of(*reference),
            ),
        }
    }
}

/// The member of an object, where it is a string.
pub open spec fn text_member(j: Json, key: Seq<char>) -> Option<Seq<char>> {
    match json_get(j, key) {
        Some(v) => json_str(v),
        None => None,
    }
}

/// The members of an object that are strings.
pub open spec fn text_members(entries: Seq<(Seq<char>, Json)>) -> Map<Seq<char>, Seq<char>>
    decreases entries.len(),
{
    if entries.len() == 0 {
        Map::empty()
    } else {
        match entries.last().1 {
            Json::Str(s) => text_members(entries.drop_last()).insert(entries.last().0, s),
            _ => text_members(entries.drop_last()),
        }
    }
}

/// The member that an object's metadata give.
pub open spec fn metadata_member(object: Json, key: Seq<char>) -> Option<Seq<char>> {
    match json_get(object, "metadata"@) {
        Some(Json::Object(entries)) => resolved(text_members(entries), key),
        _ => None,
    }
}

pub open spec fn is_subscription_event(kind: Seq<char>) -> bool {
    ||| kind == "customer.subscription.created"@
    ||| kind == "customer.subscription.updated"@
    ||| kind == "customer.subscription.deleted"@
    ||| kind == "customer.subscription.paused"@
    ||| kind == "customer.subscription.resumed"@
}

/// The subscription behind an invoice, which newer versions of the API name
/// under the invoice's parent.
pub open spec fn invoice_subscription(object: Json) -> Option<Seq<char>> {
    match text_member(object, "subscription"@) {
        Some(id) => Some(id),
        None => match json_get(object, "parent"@) {
            Some(p) => match json_get(p, "subscription_details"@) {
                Some(d) => text_member(d, "subscription"@),
                None => None,
            },
            None => None,
        },
    }
}

/// A charge counts when it was paid, succeeded and has a customer.
pub open spec fn charge_action(object: Json) -> ActionModel {
    let paid = match json_get(object, "paid"@) {
        Some(v) => json_bool(v) == Some(true),
        None => false,
    };
    let amount = match json_get(object, "amount"@) {
        Some(v) => match json_i64(v) {
            Some(n) => n,
            None => 0,
        },
        None => 0,
    };
    match text_member(object, "customer"@) {
        Some(id) => if paid && text_member(object, "status"@) == Some("succeeded"@) {
            ActionModel::CountCharge(id, amount)
        } else {
            ActionModel::Ignore
        },
        None => ActionModel::Ignore,
    }
}

/// What an event of a kind changes.
pub open spec fn action_of(kind: Seq<char>, object: Json, key: Seq<char>) -> ActionModel {
    if is_subscription_event(kind) {
        match subscription_of(object) {
            Some(s) => ActionModel::StoreSubscription(subscription_fields(s)),
            None => ActionModel::Ignore,
        }
    } else if kind == "customer.created"@ || kind == "customer.updated"@ {
        match customer_of(object) {
            Some(c) => ActionModel::StoreCustomer(customer_fields(c)),
            None => ActionModel::Ignore,
        }
    } else if kind == "customer.deleted"@ {
        ActionModel::DropCustomer(
            text_member(object, "id"@),
            metadata_member(object, key),
            match customer_of(object) {
                Some(c) => Some(customer_fields(c)),
                None => None,
            },
        )
    } else if kind == "charge.succeeded"@ {
        charge_action(object)
    } else if kind == "checkout.session.completed"@ {
        match text_member(object, "subscription"@) {
            Some(id) => ActionModel::FetchSubscription(
                id,
                text_member(object, "client_reference_id"@),
            ),
            None => ActionModel::Ignore,
        }
    } else if kind == "invoice.payment_failed"@ || kind == "invoice.paid"@ {
        match invoice_subscription(object) {
            Some(id) => ActionModel::FetchSubscription(id, None),
            None => ActionModel::Ignore,
        }
    } else {
        ActionModel::Ignore
    }
}

fn member_text(object: &JsonValue, key: &str) -> (r: Option<String>)
    ensures
        text_of(r) == text_member(object@, key@),
{
    match object.get(key) {
        Some(v) => match v.as_str() {
            Some(s) => Some(s.to_owned()),
            None => None,
        },
        None => None,
    }
}

fn member_by_metadata(object: &JsonValue, metadata_key: &str) -> (r: Option<String>)
    ensures
        text_of(r) == metadata_member(object@, metadata_key@),
{
    match object.get("metadata") {
        Some(m) => match m {
            JsonValue::Object(entries) => {
                let ghost model = entries_model(entries@);
                let mut map: TextMap<String> = TextMap::new();
                let mut i: usize = 0;
                proof {
                    assert(model.take(0) =~= Seq::empty());
                    assert(texts_map(map@) =~= Map::empty());
                }
                while i < entries.len()
                    invariant
                        model == entries_model(entries@),
                        i <= entries.len(),
                        texts_map(map@) == text_members(model.take(i as int)),
                    decreases entries.len() - i,
                {
                    proof {
                        let next = model.take(i + 1);
                        assert(next.drop_last() =~= model.take(i as int));
                        assert(next.last() == model[i as int]);
                    }
                    match &entries[i].1 {
                        JsonValue::Str(s) => {
                            let t = s.clone();
                            proof {
                                assert(texts_map(map@.insert(entries@[i as int].0@, t))
                                    =~= texts_map(map@).insert(entries@[i as int].0@, t@));
                            }
                            map.insert(entries[i].0.as_str(), t);
                        },
                        _ => {},
                    }
                    i = i + 1;
                }
                proof {
                    assert(model.take(i as int) =~= model);
                }
                resolve_from_meta(&map, metadata_key)
            },
            _ => None,
        },
        None => None,
    }
}

fn charge_step(object: &JsonValue) -> (r: EventAction)
    ensures
        r@ == charge_action(object@),
{
    let amount: i64 = match object.get("amount") {
        Some(v) => match v.as_i64() {
            Some(n) => n,
            None => 0,
        },
        None => 0,
    };
    let paid = match object.get("paid") {
        Some(v) => match v.as_bool() {
            Some(b) => b,
            None => false,
        },
        None => false,
    };
    let succeeded = match member_text(object, "status") {
        Some(s) => str_eq(s.as_str(), "succeeded"),
        None => false,
    };
    match member_text(object, "customer") {
        Some(id) => if paid && succeeded {
            EventAction::CountCharge(id, amount)
        } else {
            EventAction::Ignore
        },
        None => EventAction::Ignore,
    }
}

fn subscription_behind_invoice(object: &JsonValue) -> (r: Option<String>)
    ensures
        text_of(r) == invoice_subscription(object@),
{
    match member_text(object, "subscription") {
        Some(id) => Some(id),
        None => match object.get("parent") {
            Some(p) => match p.get("subscription_details") {
                Some(d) => member_text(d, "subscription"),
                None => None,
            },
            None => None,
        },
    }
}

/// Decides what an event changes.
pub fn event_action(kind: &str, object: &JsonValue, metadata_key: &str) -> (r: EventAction)
    ensures
        r@ == action_of(kind@, object@, metadata_key@),
{
    if str_eq(kind, "customer.subscription.created") || str_eq(
        kind,
        "customer.subscription.updated",
    ) || str_eq(kind, "customer.subscription.deleted") || str_eq(
        kind,
        "customer.subscription.paused",
    ) || str_eq(kind, "customer.subscription.resumed") {
        match parse_subscription_object(object) {
            Some(s) => EventAction::StoreSubscription(s),
            None => EventAction::Ignore,
        }
    } else if str_eq(kind, "customer.created") || str_eq(kind, "customer.updated") {
        match parse_customer_object(object) {
            Some(c) => EventAction::StoreCustomer(c),
            None => EventAction::Ignore,
        }
    } else if str_eq(kind, "customer.deleted") {
        EventAction::DropCustomer(
            DroppedCustomer {
                customer_id: member_text(object, "id"),
                member_by_metadata: member_by_metadata(object, metadata_key),
                customer: parse_customer_object(object),
            },
        )
    } else if str_eq(kind, "charge.succeeded") {
        charge_step(object)
    } else if str_eq(kind, "checkout.session.completed") {
        match member_text(object, "subscription") {
            Some(id) => EventAction::FetchSubscription(
                id,
                member_text(object, "client_reference_id"),
            ),
            None => EventAction::Ignore,
        }
    } else if str_eq(kind, "invoice.payment_failed") || str_eq(kind, "invoice.paid") {
        match subscription_behind_invoice(object) {
            Some(id) => EventAction::FetchSubscription(id, None),
            None => EventAction::Ignore,
        }
    } else {
        EventAction::Ignore
    }
}

/// The member that a deleted customer was: by the row that is still there or,
/// failing that, by the event's metadata.
pub fn dropped_member(by_row: Option<String>, by_metadata: Option<String>) -> (r: Option<String>)
    ensures
        text_of(r) == crate::services::stripe::first_of(text_of(by_row), text_of(by_metadata)),
{
    match by_row {
        Some(id) => Some(id),
        None => by_metadata,
    }
}

} // verus!
