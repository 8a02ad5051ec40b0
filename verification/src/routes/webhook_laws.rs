//! What becomes of a delivery.
//!
//! Each law speaks of what a function was given and of what it gave.
use vstd::prelude::*;
use crate::json::{json_document, json_get, Json, JsonValue};
use crate::routes::webhooks::{
    after_applying, after_recording, authenticate_at, dropped_member, event_action,
    text_members, AccountLookup, Ending, Event, EventAction, Recorded, Reply,
};
use crate::services::ingest::resolved;
use crate::services::stripe::{
    parse_customer_object, parse_subscription_object, webhook_accepted, CustomerFields, SubFields,
};
use crate::services::stripe_laws::has;
use crate::tasks::reconcile::key_text;
use crate::text::text_of;

verus! {

// ---------------------------------------------------------------------------
// Accepting a delivery
// ---------------------------------------------------------------------------

/// The delivery is answered with the status.
pub open spec fn answers<T>(r: Result<T, Reply>, status: u16) -> bool {
    match r {
        Ok(_) => false,
        Err(a) => a.status == status,
    }
}

/// The event counts a charge for the customer.
pub open spec fn counts_for(r: EventAction, customer: Seq<char>) -> bool {
    match r {
        EventAction::CountCharge(id, _) => id@ == customer,
        _ => false,
    }
}

/// The event has the subscription fetched.
pub open spec fn fetches(r: EventAction, subscription: Seq<char>) -> bool {
    match r {
        EventAction::FetchSubscription(id, _) => id@ == subscription,
        _ => false,
    }
}

/// The subscription is fetched with a reference.
pub open spec fn brings_reference(r: EventAction) -> bool {
    match r {
        EventAction::FetchSubscription(_, reference) => reference is Some,
        _ => false,
    }
}

/// The document is an event with this id, kind and object.
pub open spec fn is_event(doc: Json, id: Seq<char>, kind: Seq<char>, object: Json) -> bool {
    &&& has(doc, "id"@, Json::Str(id))
    &&& has(doc, "type"@, Json::Str(kind))
    &&& json_get(doc, "data"@) is Some
    &&& has(json_get(doc, "data"@)->0, "object"@, object)
}

/// An event comes of a delivery only where the account has a secret, the header
/// is good under it within five minutes, and the body is that event.
pub proof fn event_comes_of_a_signed_delivery(
    account: AccountLookup,
    session_secret: &str,
    signature: Option<&str>,
    body: &[u8],
    now: i64,
    e: Event,
)
    requires
        call_ensures(
            authenticate_at,
            (&account, session_secret, signature, body, now),
            Ok::<Event, Reply>(e),
        ),
    ensures
        account matches AccountLookup::Found(Some(enc)) && key_text(session_secret@, enc@)
            matches Ok(secret) && signature matches Some(header) && webhook_accepted(
            body@,
            header@,
            secret,
            300,
            now,
        ),
        json_document(body@) matches Some(doc) && is_event(doc, e.id@, e.kind@, e.object@),
{
}

/// A delivery of an event with a good header gives the event, and every other is
/// answered: with a failure of the server where the account cannot be read, with
/// an acknowledgement where it is unknown, and with a refusal otherwise.
pub proof fn delivery_is_answered(
    account: AccountLookup,
    session_secret: &str,
    signature: Option<&str>,
    body: &[u8],
    now: i64,
    r: Result<Event, Reply>,
)
    requires
        call_ensures(authenticate_at, (&account, session_secret, signature, body, now), r),
    ensures
        account is Failed ==> answers(r, 500),
        account is Unknown ==> answers(r, 200),
        account matches AccountLookup::Found(None) ==> answers(r, 400),
        account matches AccountLookup::Found(Some(enc)) ==> match key_text(
            session_secret@,
            enc@,
        ) {
            Err(_) => answers(r, 500),
            Ok(secret) => match signature {
                None => answers(r, 400),
                Some(h) => {
                    &&& h@.len() == 0 ==> answers(r, 400)
                    &&& h@.len() > 0 && !webhook_accepted(body@, h@, secret, 300, now) ==> answers(r, 401)
                    &&& h@.len() > 0 && webhook_accepted(body@, h@, secret, 300, now) ==> (r
                        matches Err(a) ==> a.status == 400 && (json_document(body@) is None
                        || forall|id: Seq<char>, kind: Seq<char>, object: Json|
                        !#[trigger] is_event(json_document(body@)->0, id, kind, object)))
                },
            },
        },
{
}

/// A delivery is applied, with the account's key, exactly where it was recorded
/// for the first time; a repeated one is acknowledged.
pub proof fn delivery_is_applied_once(
    recorded: Recorded,
    session_secret: &str,
    key_enc: &[u8],
    r: Result<String, Reply>,
)
    requires
        call_ensures(after_recording, (recorded, session_secret, key_enc), r),
    ensures
        r is Ok ==> recorded is New,
        recorded is Failed ==> answers(r, 500),
        recorded is Duplicate ==> answers(r, 200),
        recorded is New ==> match key_text(session_secret@, key_enc@) {
            Ok(k) => r matches Ok(key) && key@ == k,
            Err(_) => answers(r, 500),
        },
{
}

/// An event that was applied is acknowledged and its member renewed; one that was
/// not is opened again, so that it is applied when it comes again.
pub proof fn failed_event_is_opened_again(applied: Result<Option<String>, ()>, r: Ending)
    requires
        call_ensures(after_applying, (applied,), r),
    ensures
        r.reopen <==> applied is Err,
        applied matches Ok(m) ==> r.reply.status == 200 && text_of(r.renew) == text_of(m),
        applied is Err ==> r.reply.status == 500 && r.renew is None,
{
}

/// The member of a deleted customer is that of its row or, failing that, of the
/// metadata.
pub proof fn row_comes_before_metadata(
    by_row: Option<String>,
    by_metadata: Option<String>,
    r: Option<String>,
)
    requires
        call_ensures(dropped_member, (by_row, by_metadata), r),
    ensures
        by_row is Some ==> text_of(r) == text_of(by_row),
        by_row is None ==> text_of(r) == text_of(by_metadata),
{
}

// ---------------------------------------------------------------------------
// Applying an event
// ---------------------------------------------------------------------------

proof fn lemma_kinds()
    ensures
        "customer.subscription.created"@.len() == 29,
        "customer.subscription.updated"@.len() == 29,
        "customer.subscription.deleted"@.len() == 29,
        "customer.subscription.paused"@.len() == 28,
        "customer.subscription.resumed"@.len() == 29,
        "customer.created"@.len() == 16,
        "customer.created"@[1] == 'u',
        "customer.created"@[9] == 'c',
        "customer.updated"@.len() == 16,
        "customer.updated"@[1] == 'u',
        "customer.updated"@[9] == 'u',
        "customer.deleted"@.len() == 16,
        "customer.deleted"@[1] == 'u',
        "customer.deleted"@[9] == 'd',
        "charge.succeeded"@.len() == 16,
        "charge.succeeded"@[1] == 'h',
        "checkout.session.completed"@.len() == 26,
        "invoice.payment_failed"@.len() == 22,
        "invoice.paid"@.len() == 12,
{
    reveal_strlit("customer.subscription.created");
    reveal_strlit("customer.subscription.updated");
    reveal_strlit("customer.subscription.deleted");
    reveal_strlit("customer.subscription.paused");
    reveal_strlit("customer.subscription.resumed");
    reveal_strlit("customer.created");
    reveal_strlit("customer.updated");
    reveal_strlit("customer.deleted");
    reveal_strlit("charge.succeeded");
    reveal_strlit("checkout.session.completed");
    reveal_strlit("invoice.payment_failed");
    reveal_strlit("invoice.paid");
}

/// An event about a subscription stores the subscription that its object is, and
/// one about a customer the customer.
pub proof fn object_of_the_event_is_stored(
    kind: &str,
    object: JsonValue,
    key: &str,
    r: EventAction,
    s: Option<SubFields>,
    c: Option<CustomerFields>,
)
    requires
        call_ensures(event_action, (kind, &object, key), r),
        call_ensures(parse_subscription_object, (&object,), s),
        call_ensures(parse_customer_object, (&object,), c),
    ensures
        kind@ == "customer.subscription.created"@ || kind@ == "customer.subscription.updated"@
            || kind@ == "customer.subscription.deleted"@ || kind@
            == "customer.subscription.paused"@ || kind@ == "customer.subscription.resumed"@
            ==> match s {
            Some(fields) => r matches EventAction::StoreSubscription(x) && x@ == fields@,
            None => r is Ignore,
        },
        kind@ == "customer.created"@ || kind@ == "customer.updated"@ ==> match c {
            Some(fields) => r matches EventAction::StoreCustomer(x) && x@ == fields@,
            None => r is Ignore,
        },
{
    lemma_kinds();
}

/// The customer of an event about its deletion is dropped: it is found by the id
/// of the object, and the metadata name its member otherwise.
pub proof fn deleted_customer_is_dropped(
    kind: &str,
    object: JsonValue,
    key: &str,
    r: EventAction,
)
    requires
        call_ensures(event_action, (kind, &object, key), r),
        kind@ == "customer.deleted"@,
    ensures
        r is DropCustomer,
        forall|id: Seq<char>| #[trigger]
            has(object@, "id"@, Json::Str(id)) ==> text_of(r->DropCustomer_0.customer_id) == Some(
                id,
            ),
        forall|entries: Seq<(Seq<char>, Json)>| #[trigger]
            has(object@, "metadata"@, Json::Object(entries)) ==> text_of(
                r->DropCustomer_0.member_by_metadata,
            ) == resolved(text_members(entries), key@),
        json_get(object@, "metadata"@) is None ==> r->DropCustomer_0.member_by_metadata is None,
{
    lemma_kinds();
}

/// A charge is counted for its customer exactly where it was paid and succeeded,
/// with its amount.
pub proof fn paid_charge_is_counted(kind: &str, object: JsonValue, key: &str, r: EventAction)
    requires
        call_ensures(event_action, (kind, &object, key), r),
        kind@ == "charge.succeeded"@,
    ensures
        r is CountCharge || r is Ignore,
        forall|id: Seq<char>| #[trigger]
            has(object@, "customer"@, Json::Str(id)) && has(object@, "paid"@, Json::Bool(true))
                && has(object@, "status"@, Json::Str("succeeded"@)) ==> counts_for(r, id),
        r is CountCharge ==> has(object@, "paid"@, Json::Bool(true)) && has(
            object@,
            "status"@,
            Json::Str("succeeded"@),
        ),
        forall|n: int| #[trigger]
            has(object@, "amount"@, Json::Int(n)) && i64::MIN <= n <= i64::MAX ==> (r
                matches EventAction::CountCharge(_, m) ==> m == n),
        json_get(object@, "amount"@) is None ==> (r matches EventAction::CountCharge(_, m) ==> m
            == 0),
{
    lemma_kinds();
}

/// A completed checkout has its subscription fetched, with the reference that it
/// was opened with, and an invoice the subscription that it is for.
pub proof fn subscription_behind_the_event_is_fetched(
    kind: &str,
    object: JsonValue,
    key: &str,
    r: EventAction,
)
    requires
        call_ensures(event_action, (kind, &object, key), r),
    ensures
        kind@ == "checkout.session.completed"@ ==> {
            &&& forall|id: Seq<char>| #[trigger]
                has(object@, "subscription"@, Json::Str(id)) ==> fetches(r, id)
            &&& forall|t: Seq<char>| #[trigger]
                has(object@, "client_reference_id"@, Json::Str(t)) ==> (r
                    matches EventAction::FetchSubscription(_, y) ==> text_of(y) == Some(t))
            &&& json_get(object@, "client_reference_id"@) is None ==> (r
                matches EventAction::FetchSubscription(_, y) ==> y is None)
            &&& json_get(object@, "subscription"@) is None ==> r is Ignore
        },
        kind@ == "invoice.payment_failed"@ || kind@ == "invoice.paid"@ ==> {
            &&& forall|id: Seq<char>| #[trigger]
                has(object@, "subscription"@, Json::Str(id)) ==> fetches(r, id) && !brings_reference(r)
            &&& json_get(object@, "subscription"@) is None ==> forall|p: Json, d: Json, id: Seq<char>|
                #[trigger] has(object@, "parent"@, p) && #[trigger] has(
                    p,
                    "subscription_details"@,
                    d,
                ) && #[trigger] has(d, "subscription"@, Json::Str(id)) ==> fetches(r, id) && !brings_reference(r)
            &&& json_get(object@, "subscription"@) is None && json_get(object@, "parent"@) is None
                ==> r is Ignore
        },
{
    lemma_kinds();
}

/// Any other event changes nothing.
pub proof fn other_events_change_nothing(
    kind: &str,
    object: JsonValue,
    key: &str,
    r: EventAction,
)
    requires
        call_ensures(event_action, (kind, &object, key), r),
        kind@ != "customer.subscription.created"@,
        kind@ != "customer.subscription.updated"@,
        kind@ != "customer.subscription.deleted"@,
        kind@ != "customer.subscription.paused"@,
        kind@ != "customer.subscription.resumed"@,
        kind@ != "customer.created"@,
        kind@ != "customer.updated"@,
        kind@ != "customer.deleted"@,
        kind@ != "charge.succeeded"@,
        kind@ != "checkout.session.completed"@,
        kind@ != "invoice.payment_failed"@,
        kind@ != "invoice.paid"@,
    ensures
        r is Ignore,
{
}

} // verus!
