//! What is kept of Stripe's objects.
//!
//! Each law speaks of the JSON object that a function read and of the fields
//! that it kept.
use vstd::prelude::*;
use crate::clock::Timestamp;
use crate::decode::text_entries;
use crate::json::{json_get, Json, JsonValue};
use crate::services::stripe::{
    parse_customer_object, parse_subscription_object, payments, spent, total_or_zero, ChargeTotals,
    CustomerFields, PriceCatalogEntry, ProductCatalogEntry, SubFields,
};
use crate::services::stripe_wire::{
    customer_of, sub_item_of, sub_items_of, Expandable, ExpandableModel,     RawChargeModel, RawPrice, RawProduct, };
use crate::text::text_of;
use crate::text_map::texts_map;

verus! {

// ---------------------------------------------------------------------------
// Members of objects
// ---------------------------------------------------------------------------

/// The object has nothing under the key, or null.
pub open spec fn lacks(j: Json, key: Seq<char>) -> bool {
    json_get(j, key) is None || json_get(j, key) == Some(Json::Null)
}

/// The object has this under the key.
pub open spec fn has(j: Json, key: Seq<char>, v: Json) -> bool {
    json_get(j, key) == Some(v)
}

/// The kept text is that under the key, and none where there is none.
pub open spec fn keeps_text(j: Json, key: Seq<char>, kept: Option<String>) -> bool {
    &&& forall|t: Seq<char>| #[trigger] has(j, key, Json::Str(t)) ==> text_of(kept) == Some(t)
    &&& lacks(j, key) ==> kept is None
}

/// The kept flag is that under the key, and false where there is none.
pub open spec fn keeps_flag(j: Json, key: Seq<char>, kept: bool) -> bool {
    &&& forall|b: bool| #[trigger] has(j, key, Json::Bool(b)) ==> kept == b
    &&& lacks(j, key) ==> !kept
}

/// The last second of the year 9999.
pub const FAR_SECOND: i64 = 253_402_300_799;

/// The kept point in time is that of the Unix second under the key, at least
/// where it lies after 1970 and before the year 10000.
pub open spec fn keeps_second(j: Json, key: Seq<char>, kept: Option<Timestamp>) -> bool {
    forall|n: int| #[trigger]
        has(j, key, Json::Int(n)) && 0 <= n <= FAR_SECOND ==> kept == Some(
            Timestamp { secs: n as i64, nanos: 0 },
        )
}

/// The kept number is that under the key, and the given one where there is none.
pub open spec fn keeps_small(j: Json, key: Seq<char>, kept: i32, otherwise: i32) -> bool {
    &&& forall|n: int| #[trigger]
        has(j, key, Json::Int(n)) && i32::MIN <= n <= i32::MAX ==> kept == n
    &&& lacks(j, key) ==> kept == otherwise
}

/// The entry is the last one of its name.
pub open spec fn last_of_its_name(entries: Seq<(Seq<char>, Json)>, i: int) -> bool {
    &&& 0 <= i < entries.len()
    &&& forall|k: int| i < k < entries.len() ==> (#[trigger] entries[k]).0 != entries[i].0
}

/// The map has the text of the entry under its name.
pub open spec fn has_entry(map: Map<Seq<char>, Seq<char>>, entry: (Seq<char>, Json)) -> bool {
    match entry.1 {
        Json::Str(t) => map.dom().contains(entry.0) && map[entry.0] == t,
        _ => false,
    }
}

/// The kept map has each text of the object under the key, and nothing else.
pub open spec fn keeps_texts(j: Json, key: Seq<char>, kept: Map<Seq<char>, String>) -> bool {
    &&& forall|entries: Seq<(Seq<char>, Json)>, i: int|
        has(j, key, Json::Object(entries)) && #[trigger] last_of_its_name(entries, i) ==> has_entry(
            texts_map(kept),
            entries[i],
        )
    &&& forall|entries: Seq<(Seq<char>, Json)>, name: Seq<char>|
        has(j, key, Json::Object(entries)) && kept.dom().contains(name) ==> #[trigger] named(
            entries,
            name,
        )
    &&& json_get(j, key) is None ==> forall|name: Seq<char>| !#[trigger] kept.dom().contains(name)
}

/// Some entry has the name.
pub open spec fn named(entries: Seq<(Seq<char>, Json)>, name: Seq<char>) -> bool {
    exists|i: int| 0 <= i < entries.len() && (#[trigger] entries[i]).0 == name
}

proof fn lemma_text_entry(entries: Seq<(Seq<char>, Json)>, i: int)
    requires
        text_entries(entries) is Some,
        last_of_its_name(entries, i),
    ensures
        has_entry(text_entries(entries)->0, entries[i]),
    decreases entries.len(),
{
    let before = entries.drop_last();
    let n = entries.len() - 1;
    if i < n {
        assert(entries[n].0 != entries[i].0);
        assert(before[i] == entries[i]);
        assert forall|k: int| i < k < before.len() implies (#[trigger] before[k]).0
            != before[i].0 by {
            assert(before[k] == entries[k]);
        }
        lemma_text_entry(before, i);
    }
}

proof fn lemma_text_names(entries: Seq<(Seq<char>, Json)>, name: Seq<char>)
    requires
        text_entries(entries) is Some,
        text_entries(entries)->0.dom().contains(name),
    ensures
        named(entries, name),
    decreases entries.len(),
{
    if entries.len() > 0 {
        let before = entries.drop_last();
        let n = entries.len() - 1;
        if name != entries[n].0 {
            lemma_text_names(before, name);
            let i = choose|i: int| 0 <= i < before.len() && (#[trigger] before[i]).0 == name;
            assert(entries[i].0 == name);
        }
    }
}

proof fn lemma_keeps_texts(j: Json, key: Seq<char>, kept: Map<Seq<char>, String>)
    requires
        match json_get(j, key) {
            None => Some(Map::empty()),
            Some(Json::Object(entries)) => text_entries(entries),
            _ => None,
        } == Some(texts_map(kept)),
    ensures
        keeps_texts(j, key, kept),
{
    let map = texts_map(kept);
    assert(map.dom() =~= kept.dom());
    match json_get(j, key) {
        Some(Json::Object(entries)) => {
            assert forall|i: int| #[trigger] last_of_its_name(entries, i) implies has_entry(
                map,
                entries[i],
            ) by {
                lemma_text_entry(entries, i);
            }
            assert forall|name: Seq<char>| kept.dom().contains(name) implies #[trigger] named(
                entries,
                name,
            ) by {
                lemma_text_names(entries, name);
            }
        },
        None => {
            assert forall|name: Seq<char>| !#[trigger] kept.dom().contains(name) by {
                assert(!map.dom().contains(name));
            }
        },
        _ => {},
    }
}

// ---------------------------------------------------------------------------
// Customers
// ---------------------------------------------------------------------------

/// What is kept of a customer is what the object has under the names of the
/// fields: a missing flag is false, and the country is that of the address.
pub open spec fn keeps_customer(j: Json, c: CustomerFields) -> bool {
    &&& has(j, "id"@, Json::Str(c.id@))
    &&& keeps_text(j, "email"@, c.email)
    &&& keeps_text(j, "name"@, c.name)
    &&& keeps_text(j, "currency"@, c.currency)
    &&& keeps_flag(j, "delinquent"@, c.delinquent)
    &&& keeps_flag(j, "deleted"@, c.deleted)
    &&& keeps_second(j, "created"@, c.created_at)
    &&& lacks(j, "created"@) ==> c.created_at is None
    &&& keeps_texts(j, "metadata"@, c.metadata@)
    &&& forall|a: Json| #[trigger] has(j, "address"@, a) && a is Object ==> keeps_text(
        a,
        "country"@,
        c.country,
    )
    &&& lacks(j, "address"@) ==> c.country is None
}

/// A customer keeps what the object says.
pub proof fn customer_is_kept_as_it_is(object: JsonValue, c: CustomerFields)
    requires
        call_ensures(parse_customer_object, (&object,), Some(c)),
        object@ is Object,
    ensures
        keeps_customer(object@, c),
{
    lemma_customer(object@, c);
}

proof fn lemma_customer(j: Json, c: CustomerFields)
    requires
        j is Object,
        customer_of(j) matches Some(raw) && crate::services::stripe::customer_fields(raw) == c@,
    ensures
        keeps_customer(j, c),
{
    lemma_keeps_texts(j, "metadata"@, c.metadata@);
}

// ---------------------------------------------------------------------------
// Subscriptions
// ---------------------------------------------------------------------------

/// A subscription keeps its id, its status, when it started, when it and its
/// trial end, whether it cancels, and its metadata. A missing status is
/// `incomplete`.
pub proof fn subscription_is_kept_as_it_is(object: JsonValue, s: SubFields)
    requires
        call_ensures(parse_subscription_object, (&object,), Some(s)),
        object@ is Object,
    ensures
        ({
            let j = object@;
            &&& has(j, "id"@, Json::Str(s.id@))
            &&& forall|t: Seq<char>| #[trigger]
                has(j, "status"@, Json::Str(t)) ==> s.status@ == t
            &&& lacks(j, "status"@) ==> s.status@ == "incomplete"@
            &&& keeps_flag(j, "cancel_at_period_end"@, s.cancel_at_period_end)
            &&& keeps_second(j, "current_period_end"@, s.current_period_end)
            &&& keeps_second(j, "trial_end"@, s.trial_end)
            &&& lacks(j, "trial_end"@) ==> s.trial_end is None
            &&& keeps_second(j, "start_date"@, s.started_at)
            &&& lacks(j, "start_date"@) ==> keeps_second(j, "created"@, s.started_at)
            &&& keeps_second(j, "created"@, s.created_at)
            &&& lacks(j, "created"@) ==> s.created_at is None
            &&& keeps_texts(j, "metadata"@, s.metadata@)
        }),
{
    lemma_keeps_texts(object@, "metadata"@, s.metadata@);
}

/// A subscription keeps whose it is: the id of its customer, and the customer
/// where it came along.
pub proof fn subscription_keeps_its_customer(object: JsonValue, s: SubFields)
    requires
        call_ensures(parse_subscription_object, (&object,), Some(s)),
        object@ is Object,
    ensures
        ({
            let j = object@;
            &&& forall|t: Seq<char>| #[trigger]
                has(j, "customer"@, Json::Str(t)) ==> text_of(s.customer_id) == Some(t)
                    && s.customer is None
            &&& lacks(j, "customer"@) ==> s.customer_id is None && s.customer is None
            &&& forall|c: Json| #[trigger]
                has(j, "customer"@, c) && c is Object ==> s.customer is Some && keeps_customer(
                    c,
                    s.customer->0,
                ) && text_of(s.customer_id) == Some(s.customer->0.id@)
        }),
{
    let j = object@;
    assert forall|c: Json| #[trigger] has(j, "customer"@, c) && c is Object implies s.customer
        is Some && keeps_customer(c, s.customer->0) && text_of(s.customer_id) == Some(
        s.customer->0.id@,
    ) by {
        lemma_customer(c, s.customer->0);
    }
}

/// The first item of a subscription object.
pub open spec fn is_first_item(j: Json, item: Json) -> bool {
    exists|data: Json, list: Seq<Json>|
        {
            &&& #[trigger] has(j, "items"@, data)
            &&& data is Object
            &&& #[trigger] has(data, "data"@, Json::Array(list))
            &&& list.len() > 0
            &&& list[0] == item
            &&& item is Object
        }
}

proof fn lemma_first_item(items: Seq<Json>)
    requires
        items.len() > 0,
        sub_items_of(items) is Some,
    ensures
        sub_items_of(items)->0.len() == items.len(),
        sub_item_of(items[0]) == Some(sub_items_of(items)->0[0]),
    decreases items.len(),
{
    let before = items.drop_last();
    if before.len() > 0 {
        lemma_first_item(before);
        assert(before[0] == items[0]);
    } else {
        assert(sub_items_of(before)->0.len() == 0);
        assert(items.last() == items[0]);
    }
}

/// The kept product is the text under the key, or the id of the object there.
pub open spec fn keeps_product(j: Json, kept: Option<String>) -> bool {
    &&& forall|t: Seq<char>| #[trigger]
        has(j, "product"@, Json::Str(t)) ==> text_of(kept) == Some(t)
    &&& forall|p: Json| #[trigger]
        has(j, "product"@, p) && p is Object ==> kept is Some && has(
            p,
            "id"@,
            Json::Str(kept->0@),
        )
    &&& lacks(j, "product"@) ==> kept is None
}

/// A subscription keeps the plan of its first item: the price with its product,
/// amount, currency and interval, and the quantity. The end of the period is the
/// item's where the subscription does not say.
pub proof fn subscription_keeps_its_plan(
    object: JsonValue,
    s: SubFields,
    item: Json,
    price: Json,
)
    requires
        call_ensures(parse_subscription_object, (&object,), Some(s)),
        object@ is Object,
        is_first_item(object@, item),
        has(item, "price"@, price),
        price is Object,
    ensures
        s.price_id is Some,
        has(price, "id"@, Json::Str(s.price_id->0@)),
        keeps_product(price, s.product_id),
        forall|n: int| #[trigger]
            has(price, "unit_amount"@, Json::Int(n)) ==> s.unit_amount_cents == n,
        lacks(price, "unit_amount"@) ==> s.unit_amount_cents == 0,
        keeps_text(price, "currency"@, s.currency),
        forall|r: Json| #[trigger]
            has(price, "recurring"@, r) && r is Object ==> keeps_text(r, "interval"@, s.interval)
                && keeps_small(r, "interval_count"@, s.interval_count, 1),
        lacks(price, "recurring"@) ==> s.interval is None && s.interval_count == 1,
        keeps_small(item, "quantity"@, s.quantity, 1),
        lacks(object@, "current_period_end"@) ==> keeps_second(
            item,
            "current_period_end"@,
            s.current_period_end,
        ),
{
    let j = object@;
    let (data, list) = choose|data: Json, list: Seq<Json>|
        {
            &&& #[trigger] has(j, "items"@, data)
            &&& data is Object
            &&& #[trigger] has(data, "data"@, Json::Array(list))
            &&& list.len() > 0
            &&& list[0] == item
            &&& item is Object
        };
    lemma_first_item(list);
}

/// A subscription without items keeps no plan, and counts once.
pub proof fn subscription_without_items_keeps_no_plan(object: JsonValue, s: SubFields)
    requires
        call_ensures(parse_subscription_object, (&object,), Some(s)),
        object@ is Object,
        json_get(object@, "items"@) is None,
    ensures
        s.price_id is None,
        s.product_id is None,
        s.unit_amount_cents == 0,
        s.currency is None,
        s.interval is None,
        s.interval_count == 1,
        s.quantity == 1,
        lacks(object@, "current_period_end"@) ==> s.current_period_end is None,
{
}

/// What is there under the key, if anything, is a text.
pub open spec fn text_or_nothing(j: Json, key: Seq<char>) -> bool {
    lacks(j, key) || (json_get(j, key) matches Some(v) && v is Str)
}

/// What is there under the key, if anything, is a flag.
pub open spec fn flag_or_nothing(j: Json, key: Seq<char>) -> bool {
    lacks(j, key) || (json_get(j, key) matches Some(v) && v is Bool)
}

/// What is there under the key, if anything, is a number that fits.
pub open spec fn number_or_nothing(j: Json, key: Seq<char>) -> bool {
    lacks(j, key) || (json_get(j, key) matches Some(Json::Int(n)) && i64::MIN <= n <= i64::MAX)
}

/// There is nothing under the key, or an object of texts.
pub open spec fn texts_or_nothing(j: Json, key: Seq<char>) -> bool {
    match json_get(j, key) {
        None => true,
        Some(Json::Object(entries)) => forall|i: int|
            0 <= i < entries.len() ==> (#[trigger] entries[i]).1 is Str,
        _ => false,
    }
}

proof fn lemma_texts_are_read(entries: Seq<(Seq<char>, Json)>)
    requires
        forall|i: int| 0 <= i < entries.len() ==> (#[trigger] entries[i]).1 is Str,
    ensures
        text_entries(entries) is Some,
    decreases entries.len(),
{
    if entries.len() > 0 {
        let before = entries.drop_last();
        assert forall|i: int| 0 <= i < before.len() implies (#[trigger] before[i]).1 is Str by {
            assert(before[i] == entries[i]);
        }
        lemma_texts_are_read(before);
        assert(entries[entries.len() - 1].1 is Str);
    }
}

/// The object is a customer: it has an id, and its other fields are of their
/// types or missing.
pub open spec fn is_customer_object(j: Json) -> bool {
    &&& j is Object
    &&& json_get(j, "id"@) matches Some(v) && v is Str
    &&& text_or_nothing(j, "email"@)
    &&& text_or_nothing(j, "name"@)
    &&& text_or_nothing(j, "currency"@)
    &&& flag_or_nothing(j, "delinquent"@)
    &&& number_or_nothing(j, "created"@)
    &&& lacks(j, "address"@) || (json_get(j, "address"@) matches Some(a) && a is Object
        && text_or_nothing(a, "country"@))
    &&& texts_or_nothing(j, "metadata"@)
    &&& flag_or_nothing(j, "deleted"@)
}

proof fn lemma_customer_is_read(j: Json)
    requires
        is_customer_object(j),
    ensures
        customer_of(j) is Some,
{
    match json_get(j, "metadata"@) {
        Some(Json::Object(entries)) => lemma_texts_are_read(entries),
        _ => {},
    }
}

/// A customer object is read, whatever of its fields is missing but the id.
pub proof fn customer_object_is_read(object: JsonValue, r: Option<CustomerFields>)
    requires
        call_ensures(parse_customer_object, (&object,), r),
        is_customer_object(object@),
    ensures
        r is Some,
{
    lemma_customer_is_read(object@);
}

/// A subscription object is read, whatever of its fields is missing but the id,
/// with its customer or with the customer's id.
pub proof fn subscription_object_is_read(object: JsonValue, r: Option<SubFields>)
    requires
        call_ensures(parse_subscription_object, (&object,), r),
        ({
            let j = object@;
            &&& j is Object
            &&& json_get(j, "id"@) matches Some(v) && v is Str
            &&& text_or_nothing(j, "status"@)
            &&& text_or_nothing(j, "customer"@) || (json_get(j, "customer"@) matches Some(c)
                && is_customer_object(c))
            &&& flag_or_nothing(j, "cancel_at_period_end"@)
            &&& number_or_nothing(j, "current_period_end"@)
            &&& number_or_nothing(j, "trial_end"@)
            &&& number_or_nothing(j, "start_date"@)
            &&& number_or_nothing(j, "created"@)
            &&& texts_or_nothing(j, "metadata"@)
            &&& json_get(j, "items"@) is None || (json_get(j, "items"@) matches Some(d) && d
                is Object && json_get(d, "data"@) is None)
        }),
    ensures
        r is Some,
{
    let j = object@;
    match json_get(j, "metadata"@) {
        Some(Json::Object(entries)) => lemma_texts_are_read(entries),
        _ => {},
    }
    match json_get(j, "customer"@) {
        Some(c) => {
            if is_customer_object(c) {
                lemma_customer_is_read(c);
            }
        },
        None => {},
    }
}

// ---------------------------------------------------------------------------
// Products and prices
// ---------------------------------------------------------------------------

/// A product is shown under its name or, failing that, its id.
pub proof fn product_is_shown_by_name(p: RawProduct, e: ProductCatalogEntry)
    requires
        call_ensures(RawProduct::into_entry, (p,), e),
    ensures
        e.id@ == p.id@,
        p.name is Some ==> e.name@ == p.name->0@,
        p.name is None ==> e.name@ == p.id@,
{
    let entry = crate::services::stripe::product_entry(p@);
    assert(e@ == entry);
}

/// A price is shown with what it has; without a nickname it goes by the name of
/// its product.
pub proof fn price_is_shown_as_it_is(p: RawPrice, e: PriceCatalogEntry)
    requires
        call_ensures(RawPrice::into_entry, (p,), e),
    ensures
        e.id@ == p.id@,
        e.unit_amount_cents == p.unit_amount,
        text_of(e.currency) == text_of(p.currency),
        p.nickname is Some ==> text_of(e.nickname) == text_of(p.nickname),
        p.product is None ==> e.product_id is None,
        p.product matches Some(Expandable::Id(t)) ==> text_of(e.product_id) == Some(t@),
        p.product matches Some(Expandable::Obj(o)) ==> text_of(e.product_id) == Some(o.id@) && (
        p.nickname is None ==> text_of(e.nickname) == text_of(o.name)),
        p.recurring is None ==> e.interval is None,
        p.recurring matches Some(r) ==> text_of(e.interval) == text_of(r.interval),
{
    let entry = crate::services::stripe::price_entry(p@);
    assert(e@ == entry);
}

// ---------------------------------------------------------------------------
// Charges
// ---------------------------------------------------------------------------

/// One charge more adds its amount, and one payment, to its customer's, if it was
/// paid, succeeded and was not given back, and adds nothing to anybody's
/// otherwise.
pub proof fn charge_adds_to_its_customer(
    charges: Seq<RawChargeModel>,
    c: RawChargeModel,
    customer: Seq<char>,
)
    ensures
        spent(Seq::empty(), customer) == 0,
        payments(Seq::empty(), customer) == 0,
        ({
            let its = match c.customer {
                Some(ExpandableModel::Id(id)) => id == customer,
                Some(ExpandableModel::Obj(o)) => o.id == customer,
                None => false,
            };
            let more = spent(charges.push(c), customer) - spent(charges, customer);
            let once = payments(charges.push(c), customer) - payments(charges, customer);
            if c.paid == Some(true) && c.refunded != Some(true) && c.status == Some("succeeded"@)
                && its {
                once == 1 && more == match c.amount {
                    Some(n) => n as int,
                    None => 0,
                }
            } else {
                once == 0 && more == 0
            }
        }),
{
    assert(charges.push(c).drop_last() =~= charges);
    assert(charges.push(c).last() == c);
}

/// The totals of some charges have a customer exactly where one of the charges
/// counts for them, with what they paid and how often.
pub proof fn totals_have_those_who_paid(
    totals: ChargeTotals,
    charges: Seq<RawChargeModel>,
    customer: Seq<char>,
)
    requires
        totals.totals_of(charges),
    ensures
        totals.spend@.dom().contains(customer) <==> exists|i: int|
            0 <= i < charges.len() && counts_for(#[trigger] charges[i], customer),
        totals.spend@.dom().contains(customer) ==> totals.spend@[customer] == spent(
            charges,
            customer,
        ) && totals.count@.dom().contains(customer) && totals.count@[customer] == payments(
            charges,
            customer,
        ),
        total_or_zero(totals.spend@, customer) == spent(charges, customer),
{
    lemma_paid(charges, customer);
}

/// The charge was paid, succeeded and not given back, and is the customer's.
pub open spec fn counts_for(c: RawChargeModel, customer: Seq<char>) -> bool {
    &&& c.paid == Some(true)
    &&& c.refunded != Some(true)
    &&& c.status == Some("succeeded"@)
    &&& match c.customer {
        Some(ExpandableModel::Id(id)) => id == customer,
        Some(ExpandableModel::Obj(o)) => o.id == customer,
        None => false,
    }
}

proof fn lemma_paid(charges: Seq<RawChargeModel>, customer: Seq<char>)
    ensures
        payments(charges, customer) >= 0,
        payments(charges, customer) > 0 <==> exists|i: int|
            0 <= i < charges.len() && counts_for(#[trigger] charges[i], customer),
        payments(charges, customer) == 0 ==> spent(charges, customer) == 0,
    decreases charges.len(),
{
    if charges.len() > 0 {
        let before = charges.drop_last();
        let c = charges.last();
        lemma_paid(before, customer);
        assert(before.push(c) =~= charges);
        charge_adds_to_its_customer(before, c, customer);
        if counts_for(c, customer) {
            assert(counts_for(charges[charges.len() - 1], customer));
        }
        if exists|i: int| 0 <= i < before.len() && counts_for(#[trigger] before[i], customer) {
            let i = choose|i: int| 0 <= i < before.len() && counts_for(#[trigger] before[i], customer);
            assert(counts_for(charges[i], customer));
        }
        if exists|i: int| 0 <= i < charges.len() && counts_for(#[trigger] charges[i], customer) {
            let i = choose|i: int|
                0 <= i < charges.len() && counts_for(#[trigger] charges[i], customer);
            if i < before.len() {
                assert(counts_for(before[i], customer));
            }
        }
    }
}

} // verus!
