//! What Stripe sends: its objects as they stand in its documents, and how they
//! are read.
//!
//! The objects are read tolerantly: every field but the id may be missing, and
//! fields that are not used are passed over.
use vstd::prelude::*;
use crate::clock::{timestamp_of, utc_timestamp, Timestamp};
use crate::decode::{
    bool_field, field_of, int_field, is_record, read_bool, read_int, read_required_text,
    read_text, read_text_map, required_text, text_field, text_map_field, viewed,
};
use crate::json::{found, items_model, Json, JsonValue};
use crate::text::text_of;
use crate::text_map::{texts_map, TextMap};

verus! {

// ---------------------------------------------------------------------------
// The objects
// ---------------------------------------------------------------------------

/// An object with an id.
pub trait StripeId {
    spec fn id_text(&self) -> Seq<char>;

    fn stripe_id(&self) -> (r: &str)
        ensures
            r@ == self.id_text(),
    ;
}

/// A field that holds the id of an object, or the object itself where it was
/// asked to be expanded.
#[derive(Debug)]
pub enum Expandable<T> {
    Id(String),
    Obj(Box<T>),
}

pub enum ExpandableModel<M> {
    Id(Seq<char>),
    Obj(M),
}

impl<T: View> View for Expandable<T> {
    type V = ExpandableModel<T::V>;

    open spec fn view(&self) -> ExpandableModel<T::V> {
        match self {
            Expandable::Id(s) => ExpandableModel::Id(s@),
            Expandable::Obj(o) => ExpandableModel::Obj(o@),
        }
    }
}

#[derive(Debug)]
pub struct Address {
    pub country: Option<String>,
}

impl View for Address {
    type V = Option<Seq<char>>;

    open spec fn view(&self) -> Option<Seq<char>> {
        text_of(self.country)
    }
}

#[derive(Debug)]
pub struct RawCustomer {
    pub id: String,
    pub email: Option<String>,
    pub name: Option<String>,
    pub currency: Option<String>,
    pub delinquent: Option<bool>,
    pub created: Option<i64>,
    pub address: Option<Address>,
    pub metadata: TextMap<String>,
    pub deleted: Option<bool>,
}

pub struct RawCustomerModel {
    pub id: Seq<char>,
    pub email: Option<Seq<char>>,
    pub name: Option<Seq<char>>,
    pub currency: Option<Seq<char>>,
    pub delinquent: Option<bool>,
    pub created: Option<i64>,
    pub address: Option<Option<Seq<char>>>,
    pub metadata: Map<Seq<char>, Seq<char>>,
    pub deleted: Option<bool>,
}

impl View for RawCustomer {
    type V = RawCustomerModel;

    open spec fn view(&self) -> RawCustomerModel {
        RawCustomerModel {
            id: self.id@,
            email: text_of(self.email),
            name: text_of(self.name),
            currency: text_of(self.currency),
            delinquent: self.delinquent,
            created: self.created,
            address: viewed(self.address),
            metadata: texts_map(self.metadata@),
            deleted: self.deleted,
        }
    }
}

impl StripeId for RawCustomer {
    open spec fn id_text(&self) -> Seq<char> {
        self@.id
    }

    fn stripe_id(&self) -> (r: &str) {
        self.id.as_str()
    }
}

#[derive(Debug)]
pub struct RawProduct {
    pub id: String,
    pub name: Option<String>,
}

pub struct RawProductModel {
    pub id: Seq<char>,
    pub name: Option<Seq<char>>,
}

impl View for RawProduct {
    type V = RawProductModel;

    open spec fn view(&self) -> RawProductModel {
        RawProductModel { id: self.id@, name: text_of(self.name) }
    }
}

impl StripeId for RawProduct {
    open spec fn id_text(&self) -> Seq<char> {
        self@.id
    }

    fn stripe_id(&self) -> (r: &str) {
        self.id.as_str()
    }
}

#[derive(Debug)]
pub struct Recurring {
    pub interval: Option<String>,
    pub interval_count: Option<i64>,
}

pub struct RecurringModel {
    pub interval: Option<Seq<char>>,
    pub interval_count: Option<i64>,
}

impl View for Recurring {
    type V = RecurringModel;

    open spec fn view(&self) -> RecurringModel {
        RecurringModel { interval: text_of(self.interval), interval_count: self.interval_count }
    }
}

#[derive(Debug)]
pub struct RawPrice {
    pub id: String,
    pub unit_amount: Option<i64>,
    pub currency: Option<String>,
    pub nickname: Option<String>,
    pub recurring: Option<Recurring>,
    pub product: Option<Expandable<RawProduct>>,
}

pub struct RawPriceModel {
    pub id: Seq<char>,
    pub unit_amount: Option<i64>,
    pub currency: Option<Seq<char>>,
    pub nickname: Option<Seq<char>>,
    pub recurring: Option<RecurringModel>,
    pub product: Option<ExpandableModel<RawProductModel>>,
}

impl View for RawPrice {
    type V = RawPriceModel;

    open spec fn view(&self) -> RawPriceModel {
        RawPriceModel {
            id: self.id@,
            unit_amount: self.unit_amount,
            currency: text_of(self.currency),
            nickname: text_of(self.nickname),
            recurring: viewed(self.recurring),
            product: viewed(self.product),
        }
    }
}

#[derive(Debug)]
pub struct RawSubItem {
    pub price: Option<RawPrice>,
    pub quantity: Option<i64>,
    pub current_period_end: Option<i64>,
}

pub struct RawSubItemModel {
    pub price: Option<RawPriceModel>,
    pub quantity: Option<i64>,
    pub current_period_end: Option<i64>,
}

impl View for RawSubItem {
    type V = RawSubItemModel;

    open spec fn view(&self) -> RawSubItemModel {
        RawSubItemModel {
            price: viewed(self.price),
            quantity: self.quantity,
            current_period_end: self.current_period_end,
        }
    }
}

#[derive(Debug)]
pub struct RawSubscription {
    pub id: String,
    pub status: Option<String>,
    pub customer: Option<Expandable<RawCustomer>>,
    pub cancel_at_period_end: Option<bool>,
    pub current_period_end: Option<i64>,
    pub trial_end: Option<i64>,
    pub start_date: Option<i64>,
    pub created: Option<i64>,
    pub metadata: TextMap<String>,
    pub items: Vec<RawSubItem>,
}

pub struct RawSubscriptionModel {
    pub id: Seq<char>,
    pub status: Option<Seq<char>>,
    pub customer: Option<ExpandableModel<RawCustomerModel>>,
    pub cancel_at_period_end: Option<bool>,
    pub current_period_end: Option<i64>,
    pub trial_end: Option<i64>,
    pub start_date: Option<i64>,
    pub created: Option<i64>,
    pub metadata: Map<Seq<char>, Seq<char>>,
    pub items: Seq<RawSubItemModel>,
}

impl View for RawSubscription {
    type V = RawSubscriptionModel;

    open spec fn view(&self) -> RawSubscriptionModel {
        RawSubscriptionModel {
            id: self.id@,
            status: text_of(self.status),
            customer: viewed(self.customer),
            cancel_at_period_end: self.cancel_at_period_end,
            current_period_end: self.current_period_end,
            trial_end: self.trial_end,
            start_date: self.start_date,
            created: self.created,
            metadata: texts_map(self.metadata@),
            items: self.items@.map_values(|i: RawSubItem| i@),
        }
    }
}

/// One charge.
#[derive(Debug)]
pub struct RawCharge {
    pub id: String,
    pub customer: Option<Expandable<RawCustomer>>,
    pub amount: Option<i64>,
    pub paid: Option<bool>,
    pub refunded: Option<bool>,
    pub status: Option<String>,
}

pub struct RawChargeModel {
    pub id: Seq<char>,
    pub customer: Option<ExpandableModel<RawCustomerModel>>,
    pub amount: Option<i64>,
    pub paid: Option<bool>,
    pub refunded: Option<bool>,
    pub status: Option<Seq<char>>,
}

impl View for RawCharge {
    type V = RawChargeModel;

    open spec fn view(&self) -> RawChargeModel {
        RawChargeModel {
            id: self.id@,
            customer: viewed(self.customer),
            amount: self.amount,
            paid: self.paid,
            refunded: self.refunded,
            status: text_of(self.status),
        }
    }
}

/// The account behind a key, as far as the key may read it.
#[derive(Debug)]
pub struct RawAccount {
    pub id: Option<String>,
    pub country: Option<String>,
    pub email: Option<String>,
    pub business_profile: Option<BusinessProfile>,
    pub settings: Option<AccountSettings>,
}

#[derive(Debug)]
pub struct BusinessProfile {
    pub name: Option<String>,
}

#[derive(Debug)]
pub struct AccountSettings {
    pub dashboard: Option<DashboardSettings>,
}

#[derive(Debug)]
pub struct DashboardSettings {
    pub display_name: Option<String>,
}

impl RawAccount {
    pub open spec fn dashboard_name(self) -> Option<Seq<char>> {
        match self.settings {
            Some(s) => match s.dashboard {
                Some(d) => text_of(d.display_name),
                None => None,
            },
            None => None,
        }
    }

    pub open spec fn business_name(self) -> Option<Seq<char>> {
        match self.business_profile {
            Some(b) => text_of(b.name),
            None => None,
        }
    }
}

impl<T: StripeId> Expandable<T> {
    /// The id of the object, expanded or not.
    pub open spec fn id_text(&self) -> Seq<char> {
        match self {
            Expandable::Id(s) => s@,
            Expandable::Obj(o) => o.id_text(),
        }
    }

    pub fn id(&self) -> (r: &str)
        ensures
            r@ == self.id_text(),
    {
        match self {
            Expandable::Id(s) => s.as_str(),
            Expandable::Obj(o) => o.stripe_id(),
        }
    }

    /// The object, where it was expanded.
    pub fn object(&self) -> (r: Option<&T>)
        ensures
            match (r, self) {
                (Some(t), Expandable::Obj(o)) => *t == **o,
                (None, Expandable::Id(_)) => true,
                _ => false,
            },
    {
        match self {
            Expandable::Obj(o) => Some(&**o),
            Expandable::Id(_) => None,
        }
    }
}

/// The id in a field for a customer.
pub open spec fn customer_ref_id(e: ExpandableModel<RawCustomerModel>) -> Seq<char> {
    match e {
        ExpandableModel::Id(s) => s,
        ExpandableModel::Obj(c) => c.id,
    }
}

/// The id in a field for a product.
pub open spec fn product_ref_id(e: ExpandableModel<RawProductModel>) -> Seq<char> {
    match e {
        ExpandableModel::Id(s) => s,
        ExpandableModel::Obj(p) => p.id,
    }
}

// ---------------------------------------------------------------------------
// Reading
// ---------------------------------------------------------------------------

pub open spec fn address_field(f: Option<Json>) -> Option<Option<Option<Seq<char>>>> {
    match f {
        None | Some(Json::Null) => Some(None),
        Some(j) => if is_record(j, 1) {
            match text_field(field_of(j, "country"@, 0)) {
                Some(country) => Some(Some(country)),
                None => None,
            }
        } else {
            None
        },
    }
}

/// The customer of a document.
pub open spec fn customer_of(j: Json) -> Option<RawCustomerModel> {
    let id = required_text(field_of(j, "id"@, 0));
    let email = text_field(field_of(j, "email"@, 1));
    let name = text_field(field_of(j, "name"@, 2));
    let currency = text_field(field_of(j, "currency"@, 3));
    let delinquent = bool_field(field_of(j, "delinquent"@, 4));
    let created = int_field(field_of(j, "created"@, 5));
    let address = address_field(field_of(j, "address"@, 6));
    let metadata = text_map_field(field_of(j, "metadata"@, 7));
    let deleted = bool_field(field_of(j, "deleted"@, 8));
    if is_record(j, 9) && id is Some && email is Some && name is Some && currency is Some
        && delinquent is Some && created is Some && address is Some && metadata is Some
        && deleted is Some {
        Some(
            RawCustomerModel {
                id: id->0,
                email: email->0,
                name: name->0,
                currency: currency->0,
                delinquent: delinquent->0,
                created: created->0,
                address: address->0,
                metadata: metadata->0,
                deleted: deleted->0,
            },
        )
    } else {
        None
    }
}

/// A customer's id, or the customer.
pub open spec fn customer_field(f: Option<Json>) -> Option<
    Option<ExpandableModel<RawCustomerModel>>,
> {
    match f {
        None | Some(Json::Null) => Some(None),
        Some(Json::Str(s)) => Some(Some(ExpandableModel::Id(s))),
        Some(j) => match customer_of(j) {
            Some(c) => Some(Some(ExpandableModel::Obj(c))),
            None => None,
        },
    }
}

/// The product of a document.
pub open spec fn product_of(j: Json) -> Option<RawProductModel> {
    let id = required_text(field_of(j, "id"@, 0));
    let name = text_field(field_of(j, "name"@, 1));
    if is_record(j, 2) && id is Some && name is Some {
        Some(RawProductModel { id: id->0, name: name->0 })
    } else {
        None
    }
}

/// A product's id, or the product.
pub open spec fn product_field(f: Option<Json>) -> Option<
    Option<ExpandableModel<RawProductModel>>,
> {
    match f {
        None | Some(Json::Null) => Some(None),
        Some(Json::Str(s)) => Some(Some(ExpandableModel::Id(s))),
        Some(j) => match product_of(j) {
            Some(p) => Some(Some(ExpandableModel::Obj(p))),
            None => None,
        },
    }
}

pub open spec fn recurring_field(f: Option<Json>) -> Option<Option<RecurringModel>> {
    match f {
        None | Some(Json::Null) => Some(None),
        Some(j) => {
            let interval = text_field(field_of(j, "interval"@, 0));
            let interval_count = int_field(field_of(j, "interval_count"@, 1));
            if is_record(j, 2) && interval is Some && interval_count is Some {
                Some(
                    Some(
                        RecurringModel {
                            interval: interval->0,
                            interval_count: interval_count->0,
                        },
                    ),
                )
            } else {
                None
            }
        },
    }
}

pub open spec fn price_field(f: Option<Json>) -> Option<Option<RawPriceModel>> {
    match f {
        None | Some(Json::Null) => Some(None),
        Some(j) => {
            let id = required_text(field_of(j, "id"@, 0));
            let unit_amount = int_field(field_of(j, "unit_amount"@, 1));
            let currency = text_field(field_of(j, "currency"@, 2));
            let nickname = text_field(field_of(j, "nickname"@, 3));
            let recurring = recurring_field(field_of(j, "recurring"@, 4));
            let product = product_field(field_of(j, "product"@, 5));
            if is_record(j, 6) && id is Some && unit_amount is Some && currency is Some
                && nickname is Some && recurring is Some && product is Some {
                Some(
                    Some(
                        RawPriceModel {
                            id: id->0,
                            unit_amount: unit_amount->0,
                            currency: currency->0,
                            nickname: nickname->0,
                            recurring: recurring->0,
                            product: product->0,
                        },
                    ),
                )
            } else {
                None
            }
        },
    }
}

/// The item of a document.
pub open spec fn sub_item_of(j: Json) -> Option<RawSubItemModel> {
    let price = price_field(field_of(j, "price"@, 0));
    let quantity = int_field(field_of(j, "quantity"@, 1));
    let end = int_field(field_of(j, "current_period_end"@, 2));
    if is_record(j, 3) && price is Some && quantity is Some && end is Some {
        Some(
            RawSubItemModel { price: price->0, quantity: quantity->0, current_period_end: end->0 },
        )
    } else {
        None
    }
}

pub open spec fn sub_items_of(items: Seq<Json>) -> Option<Seq<RawSubItemModel>>
    decreases items.len(),
{
    if items.len() == 0 {
        Some(Seq::empty())
    } else {
        match (sub_items_of(items.drop_last()), sub_item_of(items.last())) {
            (Some(before), Some(item)) => Some(before.push(item)),
            _ => None,
        }
    }
}

/// The items of a subscription: a record with a list of them.
pub open spec fn sub_items_field(f: Option<Json>) -> Option<Seq<RawSubItemModel>> {
    match f {
        None => Some(Seq::empty()),
        Some(j) => if !is_record(j, 1) {
            None
        } else {
            match field_of(j, "data"@, 0) {
                None => Some(Seq::empty()),
                Some(Json::Array(items)) => sub_items_of(items),
                _ => None,
            }
        },
    }
}

/// The subscription of a document.
pub open spec fn subscription_of(j: Json) -> Option<RawSubscriptionModel> {
    let id = required_text(field_of(j, "id"@, 0));
    let status = text_field(field_of(j, "status"@, 1));
    let customer = customer_field(field_of(j, "customer"@, 2));
    let cancels = bool_field(field_of(j, "cancel_at_period_end"@, 3));
    let end = int_field(field_of(j, "current_period_end"@, 4));
    let trial_end = int_field(field_of(j, "trial_end"@, 5));
    let start_date = int_field(field_of(j, "start_date"@, 6));
    let created = int_field(field_of(j, "created"@, 7));
    let metadata = text_map_field(field_of(j, "metadata"@, 8));
    let items = sub_items_field(field_of(j, "items"@, 9));
    if is_record(j, 10) && id is Some && status is Some && customer is Some && cancels is Some
        && end is Some && trial_end is Some && start_date is Some && created is Some
        && metadata is Some && items is Some {
        Some(
            RawSubscriptionModel {
                id: id->0,
                status: status->0,
                customer: customer->0,
                cancel_at_period_end: cancels->0,
                current_period_end: end->0,
                trial_end: trial_end->0,
                start_date: start_date->0,
                created: created->0,
                metadata: metadata->0,
                items: items->0,
            },
        )
    } else {
        None
    }
}

/// The view of an optional object that was read.
pub open spec fn read_view<T: View>(r: Option<Option<T>>) -> Option<Option<T::V>> {
    match r {
        Some(o) => Some(viewed(o)),
        None => None,
    }
}

fn read_address(f: Option<&JsonValue>) -> (r: Option<Option<Address>>)
    ensures
        read_view(r) == address_field(found(f)),
{
    match f {
        None => Some(None),
        Some(v) => match v {
            JsonValue::Null => Some(None),
            _ => {
                if !v.is_record(1) {
                    return None;
                }
                let country = read_text(v.field("country", 0))?;
                Some(Some(Address { country }))
            },
        },
    }
}

fn read_customer_ref(f: Option<&JsonValue>) -> (r: Option<Option<Expandable<RawCustomer>>>)
    ensures
        read_view(r) == customer_field(found(f)),
{
    match f {
        None => Some(None),
        Some(v) => match v {
            JsonValue::Null => Some(None),
            JsonValue::Str(s) => Some(Some(Expandable::Id(s.clone()))),
            _ => {
                let c = RawCustomer::from_json(v)?;
                Some(Some(Expandable::Obj(Box::new(c))))
            },
        },
    }
}

fn read_product_ref(f: Option<&JsonValue>) -> (r: Option<Option<Expandable<RawProduct>>>)
    ensures
        read_view(r) == product_field(found(f)),
{
    match f {
        None => Some(None),
        Some(v) => match v {
            JsonValue::Null => Some(None),
            JsonValue::Str(s) => Some(Some(Expandable::Id(s.clone()))),
            _ => {
                if !v.is_record(2) {
                    return None;
                }
                let id = read_required_text(v.field("id", 0))?;
                let name = read_text(v.field("name", 1))?;
                Some(Some(Expandable::Obj(Box::new(RawProduct { id, name }))))
            },
        },
    }
}

fn read_recurring(f: Option<&JsonValue>) -> (r: Option<Option<Recurring>>)
    ensures
        read_view(r) == recurring_field(found(f)),
{
    match f {
        None => Some(None),
        Some(v) => match v {
            JsonValue::Null => Some(None),
            _ => {
                if !v.is_record(2) {
                    return None;
                }
                let interval = read_text(v.field("interval", 0))?;
                let interval_count = read_int(v.field("interval_count", 1))?;
                Some(Some(Recurring { interval, interval_count }))
            },
        },
    }
}

fn read_price(f: Option<&JsonValue>) -> (r: Option<Option<RawPrice>>)
    ensures
        read_view(r) == price_field(found(f)),
{
    match f {
        None => Some(None),
        Some(v) => match v {
            JsonValue::Null => Some(None),
            _ => {
                if !v.is_record(6) {
                    return None;
                }
                let id = read_required_text(v.field("id", 0))?;
                let unit_amount = read_int(v.field("unit_amount", 1))?;
                let currency = read_text(v.field("currency", 2))?;
                let nickname = read_text(v.field("nickname", 3))?;
                let recurring = read_recurring(v.field("recurring", 4))?;
                let product = read_product_ref(v.field("product", 5))?;
                Some(
                    Some(RawPrice { id, unit_amount, currency, nickname, recurring, product }),
                )
            },
        },
    }
}

fn read_sub_item(v: &JsonValue) -> (r: Option<RawSubItem>)
    ensures
        viewed(r) == sub_item_of(v@),
{
    if !v.is_record(3) {
        return None;
    }
    let price = read_price(v.field("price", 0))?;
    let quantity = read_int(v.field("quantity", 1))?;
    let current_period_end = read_int(v.field("current_period_end", 2))?;
    Some(RawSubItem { price, quantity, current_period_end })
}

proof fn lemma_sub_items_prefix(items: Seq<Json>, k: int)
    requires
        0 <= k <= items.len(),
        sub_items_of(items.take(k)) is None,
    ensures
        sub_items_of(items) is None,
    decreases items.len() - k,
{
    if k < items.len() {
        assert(items.take(k + 1).drop_last() =~= items.take(k));
        lemma_sub_items_prefix(items, k + 1);
    } else {
        assert(items.take(k) =~= items);
    }
}

/// The view of a list of items that was read.
pub open spec fn sub_items_view(r: Option<Vec<RawSubItem>>) -> Option<Seq<RawSubItemModel>> {
    match r {
        Some(v) => Some(v@.map_values(|i: RawSubItem| i@)),
        None => None,
    }
}

fn read_sub_items(f: Option<&JsonValue>) -> (r: Option<Vec<RawSubItem>>)
    ensures
        sub_items_view(r) == sub_items_field(found(f)),
{
    let mut out: Vec<RawSubItem> = Vec::new();
    proof {
        assert(out@.map_values(|i: RawSubItem| i@) =~= Seq::empty());
    }
    let v = match f {
        None => return Some(out),
        Some(v) => v,
    };
    if !v.is_record(1) {
        return None;
    }
    let list = match v.field("data", 0) {
        None => return Some(out),
        Some(list) => list,
    };
    match list {
        JsonValue::Array(items) => {
            let ghost model = items_model(items@);
            let mut i: usize = 0;
            proof {
                assert(model.take(0) =~= Seq::empty());
            }
            while i < items.len()
                invariant
                    found(f) == Some(v@),
                    is_record(v@, 1),
                    field_of(v@, "data"@, 0) == Some(Json::Array(model)),
                    model == items_model(items@),
                    i <= items.len(),
                    sub_items_of(model.take(i as int)) == Some(
                        out@.map_values(|i: RawSubItem| i@),
                    ),
                decreases items.len() - i,
            {
                let ghost next = model.take(i + 1);
                proof {
                    assert(next.drop_last() =~= model.take(i as int));
                    assert(next.last() == items@[i as int]@);
                }
                match read_sub_item(&items[i]) {
                    Some(item) => {
                        proof {
                            assert(out@.push(item).map_values(|i: RawSubItem| i@)
                                =~= out@.map_values(|i: RawSubItem| i@).push(item@));
                        }
                        out.push(item);
                    },
                    None => {
                        proof {
                            lemma_sub_items_prefix(model, i + 1);
                        }
                        return None;
                    },
                }
                i = i + 1;
            }
            assert(model.take(i as int) =~= model);
            Some(out)
        },
        _ => None,
    }
}

impl RawCustomer {
    /// Reads a customer.
    pub fn from_json(v: &JsonValue) -> (r: Option<RawCustomer>)
        ensures
            viewed(r) == customer_of(v@),
    {
        if !v.is_record(9) {
            return None;
        }
        let id = read_required_text(v.field("id", 0))?;
        let email = read_text(v.field("email", 1))?;
        let name = read_text(v.field("name", 2))?;
        let currency = read_text(v.field("currency", 3))?;
        let delinquent = read_bool(v.field("delinquent", 4))?;
        let created = read_int(v.field("created", 5))?;
        let address = read_address(v.field("address", 6))?;
        let metadata = read_text_map(v.field("metadata", 7))?;
        let deleted = read_bool(v.field("deleted", 8))?;
        Some(
            RawCustomer {
                id,
                email,
                name,
                currency,
                delinquent,
                created,
                address,
                metadata,
                deleted,
            },
        )
    }
}

impl RawSubscription {
    /// Reads a subscription.
    pub fn from_json(v: &JsonValue) -> (r: Option<RawSubscription>)
        ensures
            viewed(r) == subscription_of(v@),
    {
        if !v.is_record(10) {
            return None;
        }
        let id = read_required_text(v.field("id", 0))?;
        let status = read_text(v.field("status", 1))?;
        let customer = read_customer_ref(v.field("customer", 2))?;
        let cancel_at_period_end = read_bool(v.field("cancel_at_period_end", 3))?;
        let current_period_end = read_int(v.field("current_period_end", 4))?;
        let trial_end = read_int(v.field("trial_end", 5))?;
        let start_date = read_int(v.field("start_date", 6))?;
        let created = read_int(v.field("created", 7))?;
        let metadata = read_text_map(v.field("metadata", 8))?;
        let items = read_sub_items(v.field("items", 9))?;
        Some(
            RawSubscription {
                id,
                status,
                customer,
                cancel_at_period_end,
                current_period_end,
                trial_end,
                start_date,
                created,
                metadata,
                items,
            },
        )
    }
}

// ---------------------------------------------------------------------------
// Points in time
// ---------------------------------------------------------------------------

/// The point in time of a Unix second, where there is one.
pub open spec fn moment(unix: Option<i64>) -> Option<Timestamp> {
    match unix {
        Some(s) => timestamp_of(s),
        None => None,
    }
}

pub fn ts(unix: Option<i64>) -> (r: Option<Timestamp>)
    ensures
        r == moment(unix),
{
    match unix {
        Some(s) => utc_timestamp(s),
        None => None,
    }
}

} // verus!
