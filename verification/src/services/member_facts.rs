//! One member's facts, put together from the stored customers and
//! subscriptions.
use vstd::prelude::*;
use vstd::std_specs::convert::FromSpecImpl;
use crate::clock::Timestamp;
use crate::models::facts::Facts;
use crate::order::{ascending, insert_ascending, same_members};
use crate::services::stripe::first_of;
use crate::text::{ascii_lower, cut_last, cut_last_str, str_eq, text_of, texts};

verus! {

// ---------------------------------------------------------------------------
// The stored records
// ---------------------------------------------------------------------------

/// A customer of the member.
#[derive(Debug)]
pub struct CustomerRow {
    pub email: Option<String>,
    pub country: Option<String>,
    pub currency: Option<String>,
    pub delinquent: bool,
    pub stripe_created_at: Option<Timestamp>,
    pub lifetime_spend_cents: i64,
    pub successful_payments: i32,
}

pub struct CustomerRowModel {
    pub email: Option<Seq<char>>,
    pub country: Option<Seq<char>>,
    pub currency: Option<Seq<char>>,
    pub delinquent: bool,
    pub stripe_created_at: Option<Timestamp>,
    pub lifetime_spend_cents: i64,
    pub successful_payments: i32,
}

impl View for CustomerRow {
    type V = CustomerRowModel;

    open spec fn view(&self) -> CustomerRowModel {
        CustomerRowModel {
            email: text_of(self.email),
            country: text_of(self.country),
            currency: text_of(self.currency),
            delinquent: self.delinquent,
            stripe_created_at: self.stripe_created_at,
            lifetime_spend_cents: self.lifetime_spend_cents,
            successful_payments: self.successful_payments,
        }
    }
}

/// A subscription of the member.
#[derive(Debug)]
pub struct SubRow {
    pub status: String,
    pub price_id: Option<String>,
    pub product_id: Option<String>,
    pub unit_amount_cents: i64,
    pub currency: Option<String>,
    pub interval: Option<String>,
    pub interval_count: i32,
    pub quantity: i32,
    pub cancel_at_period_end: bool,
    pub current_period_end: Option<Timestamp>,
    pub trial_end: Option<Timestamp>,
    pub started_at: Option<Timestamp>,
    /// The charge of a month, rounded to the smallest unit.
    pub monthly_cents: i64,
}

pub struct SubRowModel {
    pub status: Seq<char>,
    pub price_id: Option<Seq<char>>,
    pub product_id: Option<Seq<char>>,
    pub unit_amount_cents: i64,
    pub currency: Option<Seq<char>>,
    pub interval: Option<Seq<char>>,
    pub interval_count: i32,
    pub quantity: i32,
    pub cancel_at_period_end: bool,
    pub current_period_end: Option<Timestamp>,
    pub trial_end: Option<Timestamp>,
    pub started_at: Option<Timestamp>,
    pub monthly_cents: i64,
}

impl View for SubRow {
    type V = SubRowModel;

    open spec fn view(&self) -> SubRowModel {
        SubRowModel {
            status: self.status@,
            price_id: text_of(self.price_id),
            product_id: text_of(self.product_id),
            unit_amount_cents: self.unit_amount_cents,
            currency: text_of(self.currency),
            interval: text_of(self.interval),
            interval_count: self.interval_count,
            quantity: self.quantity,
            cancel_at_period_end: self.cancel_at_period_end,
            current_period_end: self.current_period_end,
            trial_end: self.trial_end,
            started_at: self.started_at,
            monthly_cents: self.monthly_cents,
        }
    }
}

pub open spec fn customers_model(customers: Seq<CustomerRow>) -> Seq<CustomerRowModel> {
    customers.map_values(|c: CustomerRow| c@)
}

pub open spec fn subs_model(subs: Seq<SubRow>) -> Seq<SubRowModel> {
    subs.map_values(|s: SubRow| s@)
}

// ---------------------------------------------------------------------------
// Rules about one record
// ---------------------------------------------------------------------------

/// A subscription counts as active while it is paid for or on trial.
pub open spec fn active_status(s: Seq<char>) -> bool {
    s == "active"@ || s == "trialing"@
}

/// How favorable a status is.
pub open spec fn rank(s: Seq<char>) -> int {
    if s == "active"@ {
        7
    } else if s == "trialing"@ {
        6
    } else if s == "past_due"@ {
        5
    } else if s == "unpaid"@ {
        4
    } else if s == "paused"@ {
        3
    } else if s == "incomplete"@ {
        2
    } else if s == "canceled"@ {
        1
    } else {
        0
    }
}

/// What a subscription costs in a period. A quantity below one counts as one.
pub open spec fn period_charge(s: SubRowModel) -> int {
    s.unit_amount_cents * (if s.quantity >= 1 {
        s.quantity as int
    } else {
        1
    })
}

/// The domain of an email address, in lower case: what stands behind the last
/// `@`.
pub open spec fn domain_of(email: Option<Seq<char>>) -> Option<Seq<char>> {
    match email {
        Some(e) => match cut_last(e, '@') {
            Some((_, domain)) => Some(ascii_lower(domain)),
            None => None,
        },
        None => None,
    }
}

pub fn is_active_status(s: &str) -> (r: bool)
    ensures
        r == active_status(s@),
{
    str_eq(s, "active") || str_eq(s, "trialing")
}

pub fn status_rank(s: &str) -> (r: i32)
    ensures
        r == rank(s@),
{
    if str_eq(s, "active") {
        7
    } else if str_eq(s, "trialing") {
        6
    } else if str_eq(s, "past_due") {
        5
    } else if str_eq(s, "unpaid") {
        4
    } else if str_eq(s, "paused") {
        3
    } else if str_eq(s, "incomplete") {
        2
    } else if str_eq(s, "canceled") {
        1
    } else {
        0
    }
}

pub fn email_domain(email: Option<&str>) -> (r: Option<String>)
    ensures
        text_of(r) == domain_of(
            match email {
                Some(e) => Some(e@),
                None => None,
            },
        ),
{
    match email {
        Some(e) => match cut_last_str(e, '@') {
            Some((_, domain)) => Some(domain.to_ascii_lowercase()),
            None => None,
        },
        None => None,
    }
}

/// The charge of a period, where an `i64` can hold it.
pub fn charge_per_period(s: &SubRow) -> (r: Option<i64>)
    ensures
        match r {
            Some(n) => n == period_charge(s@),
            None => !(i64::MIN <= period_charge(s@) <= i64::MAX),
        },
{
    let quantity: i64 = if s.quantity >= 1 {
        s.quantity as i64
    } else {
        1
    };
    s.unit_amount_cents.checked_mul(quantity)
}

// ---------------------------------------------------------------------------
// Over all records
// ---------------------------------------------------------------------------

/// The active ones among the subscriptions, in order.
pub open spec fn active_subs(subs: Seq<SubRowModel>) -> Seq<SubRowModel>
    decreases subs.len(),
{
    if subs.len() == 0 {
        Seq::empty()
    } else if active_status(subs.last().status) {
        active_subs(subs.drop_last()).push(subs.last())
    } else {
        active_subs(subs.drop_last())
    }
}

/// The place of the largest number; of equal ones the last.
pub open spec fn last_largest(s: Seq<int>) -> int
    decreases s.len(),
{
    if s.len() <= 1 {
        0
    } else {
        let m = last_largest(s.drop_last());
        if s.last() >= s[m] {
            s.len() - 1
        } else {
            m
        }
    }
}

pub open spec fn ranks(subs: Seq<SubRowModel>) -> Seq<int> {
    subs.map_values(|s: SubRowModel| rank(s.status))
}

pub open spec fn charges(subs: Seq<SubRowModel>) -> Seq<int> {
    subs.map_values(|s: SubRowModel| period_charge(s))
}

/// The most favorable status among the subscriptions.
pub open spec fn headline_status(subs: Seq<SubRowModel>) -> Option<Seq<char>> {
    if subs.len() == 0 {
        None
    } else {
        Some(subs[last_largest(ranks(subs))].status)
    }
}

/// The active subscription with the highest charge.
pub open spec fn primary(active: Seq<SubRowModel>) -> Option<SubRowModel> {
    if active.len() == 0 {
        None
    } else {
        Some(active[last_largest(charges(active))])
    }
}

pub open spec fn sum(s: Seq<int>) -> int
    decreases s.len(),
{
    if s.len() == 0 {
        0
    } else {
        sum(s.drop_last()) + s.last()
    }
}

/// Every sum on the way stays within the bounds.
pub open spec fn sums_within(s: Seq<int>, low: int, high: int) -> bool {
    forall|k: int| 0 <= k <= s.len() ==> low <= #[trigger] sum(s.take(k)) <= high
}

pub open spec fn spends(customers: Seq<CustomerRowModel>) -> Seq<int> {
    customers.map_values(|c: CustomerRowModel| c.lifetime_spend_cents as int)
}

pub open spec fn payment_counts(customers: Seq<CustomerRowModel>) -> Seq<int> {
    customers.map_values(|c: CustomerRowModel| c.successful_payments as int)
}

pub open spec fn monthly_values(subs: Seq<SubRowModel>) -> Seq<int> {
    subs.map_values(|s: SubRowModel| s.monthly_cents as int)
}

/// The first value that is there.
pub open spec fn first_text(s: Seq<Option<Seq<char>>>) -> Option<Seq<char>>
    decreases s.len(),
{
    if s.len() == 0 {
        None
    } else {
        first_of(first_text(s.drop_last()), s.last())
    }
}

/// The earliest point in time that is there.
pub open spec fn earliest(s: Seq<Option<Timestamp>>) -> Option<Timestamp>
    decreases s.len(),
{
    if s.len() == 0 {
        None
    } else {
        match (earliest(s.drop_last()), s.last()) {
            (Some(a), Some(b)) => if b.instant() < a.instant() {
                Some(b)
            } else {
                Some(a)
            },
            (Some(a), None) => Some(a),
            (None, b) => b,
        }
    }
}

/// The texts that are there.
pub open spec fn present(s: Seq<Option<Seq<char>>>) -> Seq<Seq<char>>
    decreases s.len(),
{
    if s.len() == 0 {
        Seq::empty()
    } else {
        match s.last() {
            Some(t) => present(s.drop_last()).push(t),
            None => present(s.drop_last()),
        }
    }
}

/// What is stored of a member's facts.
#[derive(Debug)]
pub struct MemberFacts {
    pub customer_created_at: Option<Timestamp>,
    pub country_code: Option<String>,
    pub currency: Option<String>,
    pub email: Option<String>,
    pub email_domain: Option<String>,
    pub is_delinquent: bool,
    pub lifetime_spend_cents: i64,
    pub successful_payments: i32,
    pub has_active_subscription: bool,
    pub active_subscription_count: i32,
    pub subscription_status: Option<String>,
    pub is_trialing: bool,
    pub is_past_due: bool,
    pub cancels_at_period_end: bool,
    pub plan_amount_cents: i64,
    pub billing_interval: Option<String>,
    pub subscription_started_at: Option<Timestamp>,
    pub current_period_end: Option<Timestamp>,
    pub trial_end: Option<Timestamp>,
    pub total_mrr_cents: i64,
    pub product_ids: Vec<String>,
    pub price_ids: Vec<String>,
}

/// The part of a member's facts that the customers give.
pub open spec fn customer_facts(m: MemberFacts, customers: Seq<CustomerRowModel>) -> bool {
    let emails = customers.map_values(|c: CustomerRowModel| c.email);
    &&& m.lifetime_spend_cents == sum(spends(customers))
    &&& m.successful_payments == sum(payment_counts(customers))
    &&& m.is_delinquent == exists|i: int|
        0 <= i < customers.len() && (#[trigger] customers[i]).delinquent
    &&& text_of(m.email) == first_text(emails)
    &&& text_of(m.email_domain) == domain_of(first_text(emails))
    &&& text_of(m.country_code) == first_text(
        customers.map_values(|c: CustomerRowModel| c.country),
    )
    &&& m.customer_created_at == earliest(
        customers.map_values(|c: CustomerRowModel| c.stripe_created_at),
    )
}

/// The part of a member's facts that the subscriptions give, the active ones
/// among them above all.
pub open spec fn subscription_facts(m: MemberFacts, subs: Seq<SubRowModel>) -> bool {
    let active = active_subs(subs);
    &&& m.has_active_subscription == (active.len() > 0)
    &&& m.active_subscription_count == active.len() as i32
    &&& m.is_trialing == exists|i: int|
        0 <= i < subs.len() && (#[trigger] subs[i]).status == "trialing"@
    &&& m.is_past_due == exists|i: int|
        0 <= i < subs.len() && (#[trigger] subs[i]).status == "past_due"@
    &&& m.cancels_at_period_end == exists|i: int|
        0 <= i < active.len() && (#[trigger] active[i]).cancel_at_period_end
    &&& text_of(m.subscription_status) == headline_status(subs)
    &&& m.plan_amount_cents == match primary(active) {
        Some(s) => period_charge(s),
        None => 0,
    }
    &&& text_of(m.billing_interval) == match primary(active) {
        Some(s) => s.interval,
        None => None,
    }
    &&& m.total_mrr_cents == sum(monthly_values(active))
    &&& m.subscription_started_at == earliest(active.map_values(|s: SubRowModel| s.started_at))
    &&& m.current_period_end == earliest(active.map_values(|s: SubRowModel| s.current_period_end))
    &&& m.trial_end == earliest(active.map_values(|s: SubRowModel| s.trial_end))
    &&& ascending(texts(m.product_ids@))
    &&& same_members(
        texts(m.product_ids@),
        present(active.map_values(|s: SubRowModel| s.product_id)),
    )
    &&& ascending(texts(m.price_ids@))
    &&& same_members(
        texts(m.price_ids@),
        present(active.map_values(|s: SubRowModel| s.price_id)),
    )
}

/// The currency is the customers' or, failing that, the active subscriptions'.
pub open spec fn currency_of(
    customers: Seq<CustomerRowModel>,
    subs: Seq<SubRowModel>,
) -> Option<Seq<char>> {
    first_of(
        first_text(customers.map_values(|c: CustomerRowModel| c.currency)),
        first_text(active_subs(subs).map_values(|s: SubRowModel| s.currency)),
    )
}

/// The numbers that are put together stay within the machine's bounds.
pub open spec fn numbers_fit(
    customers: Seq<CustomerRowModel>,
    subs: Seq<SubRowModel>,
) -> bool {
    let active = active_subs(subs);
    &&& sums_within(spends(customers), i64::MIN as int, i64::MAX as int)
    &&& sums_within(payment_counts(customers), i32::MIN as int, i32::MAX as int)
    &&& sums_within(monthly_values(active), i64::MIN as int, i64::MAX as int)
    &&& forall|i: int|
        0 <= i < active.len() ==> i64::MIN <= period_charge(#[trigger] active[i]) <= i64::MAX
}

// ---------------------------------------------------------------------------
// Putting them together
// ---------------------------------------------------------------------------

fn active_of(subs: &Vec<SubRow>) -> (r: Vec<&SubRow>)
    ensures
        r@.map_values(|s: &SubRow| s@) == active_subs(subs_model(subs@)),
{
    let ghost model = subs_model(subs@);
    let mut out: Vec<&SubRow> = Vec::new();
    let mut i: usize = 0;
    while i < subs.len()
        invariant
            model == subs_model(subs@),
            i <= subs.len(),
            out@.map_values(|s: &SubRow| s@) =~= active_subs(model.take(i as int)),
        decreases subs.len() - i,
    {
        proof {
            let next = model.take(i + 1);
            assert(next.drop_last() =~= model.take(i as int));
            assert(next.last() == model[i as int]);
        }
        if is_active_status(subs[i].status.as_str()) {
            out.push(&subs[i]);
        }
        i = i + 1;
    }
    proof {
        assert(model.take(i as int) =~= model);
    }
    out
}

fn pick_first(found: Option<String>, next: &Option<String>) -> (r: Option<String>)
    ensures
        text_of(r) == first_of(text_of(found), text_of(*next)),
{
    match found {
        Some(t) => Some(t),
        None => next.clone(),
    }
}

fn pick_earliest(found: Option<Timestamp>, next: Option<Timestamp>) -> (r: Option<Timestamp>)
    ensures
        r == match (found, next) {
            (Some(a), Some(b)) => if b.instant() < a.instant() {
                Some(b)
            } else {
                Some(a)
            },
            (Some(a), None) => Some(a),
            (None, b) => b,
        },
{
    match (found, next) {
        (Some(a), Some(b)) => if b.before(&a) {
            Some(b)
        } else {
            Some(a)
        },
        (Some(a), None) => Some(a),
        (None, b) => b,
    }
}

/// What the customers give.
struct CustomerPart {
    spend: i64,
    payments: i32,
    delinquent: bool,
    email: Option<String>,
    country: Option<String>,
    currency: Option<String>,
    created: Option<Timestamp>,
}

fn customer_part(customers: &Vec<CustomerRow>) -> (r: CustomerPart)
    requires
        sums_within(spends(customers_model(customers@)), i64::MIN as int, i64::MAX as int),
        sums_within(payment_counts(customers_model(customers@)), i32::MIN as int, i32::MAX as int),
    ensures
        ({
            let cs = customers_model(customers@);
            &&& r.spend == sum(spends(cs))
            &&& r.payments == sum(payment_counts(cs))
            &&& r.delinquent == exists|i: int|
                0 <= i < cs.len() && (#[trigger] cs[i]).delinquent
            &&& text_of(r.email) == first_text(cs.map_values(|c: CustomerRowModel| c.email))
            &&& text_of(r.country) == first_text(cs.map_values(|c: CustomerRowModel| c.country))
            &&& text_of(r.currency) == first_text(cs.map_values(|c: CustomerRowModel| c.currency))
            &&& r.created == earliest(
                cs.map_values(|c: CustomerRowModel| c.stripe_created_at),
            )
        }),
{
    let ghost cs = customers_model(customers@);
    let mut spend: i64 = 0;
    let mut payments: i32 = 0;
    let mut delinquent = false;
    let mut email: Option<String> = None;
    let mut country: Option<String> = None;
    let mut currency: Option<String> = None;
    let mut created: Option<Timestamp> = None;
    let mut i: usize = 0;
    let ghost emails = cs.map_values(|c: CustomerRowModel| c.email);
    let ghost countries = cs.map_values(|c: CustomerRowModel| c.country);
    let ghost currencies = cs.map_values(|c: CustomerRowModel| c.currency);
    let ghost dates = cs.map_values(|c: CustomerRowModel| c.stripe_created_at);
    proof {
        assert(spends(cs).take(0) =~= Seq::empty());
        assert(payment_counts(cs).take(0) =~= Seq::empty());
        assert(emails.take(0) =~= Seq::empty());
        assert(countries.take(0) =~= Seq::empty());
        assert(currencies.take(0) =~= Seq::empty());
        assert(dates.take(0) =~= Seq::empty());
    }
    while i < customers.len()
        invariant
            cs == customers_model(customers@),
            emails == cs.map_values(|c: CustomerRowModel| c.email),
            countries == cs.map_values(|c: CustomerRowModel| c.country),
            currencies == cs.map_values(|c: CustomerRowModel| c.currency),
            dates == cs.map_values(|c: CustomerRowModel| c.stripe_created_at),
            i <= customers.len(),
            sums_within(spends(cs), i64::MIN as int, i64::MAX as int),
            sums_within(payment_counts(cs), i32::MIN as int, i32::MAX as int),
            spend == sum(spends(cs).take(i as int)),
            payments == sum(payment_counts(cs).take(i as int)),
            delinquent == exists|k: int| 0 <= k < i && (#[trigger] cs[k]).delinquent,
            text_of(email) == first_text(emails.take(i as int)),
            text_of(country) == first_text(countries.take(i as int)),
            text_of(currency) == first_text(currencies.take(i as int)),
            created == earliest(dates.take(i as int)),
        decreases customers.len() - i,
    {
        let c = &customers[i];
        proof {
            assert(cs[i as int] == c@);
            assert(spends(cs).take(i + 1).drop_last() =~= spends(cs).take(i as int));
            assert(payment_counts(cs).take(i + 1).drop_last() =~= payment_counts(cs).take(
                i as int,
            ));
            assert(emails.take(i + 1).drop_last() =~= emails.take(i as int));
            assert(countries.take(i + 1).drop_last() =~= countries.take(i as int));
            assert(currencies.take(i + 1).drop_last() =~= currencies.take(i as int));
            assert(dates.take(i + 1).drop_last() =~= dates.take(i as int));
            assert(i64::MIN <= sum(spends(cs).take(i + 1)) <= i64::MAX);
            assert(i32::MIN <= sum(payment_counts(cs).take(i + 1)) <= i32::MAX);
        }
        spend = spend + c.lifetime_spend_cents;
        payments = payments + c.successful_payments;
        delinquent = delinquent || c.delinquent;
        email = pick_first(email, &c.email);
        country = pick_first(country, &c.country);
        currency = pick_first(currency, &c.currency);
        created = pick_earliest(created, c.stripe_created_at);
        i = i + 1;
    }
    proof {
        assert(spends(cs).take(i as int) =~= spends(cs));
        assert(payment_counts(cs).take(i as int) =~= payment_counts(cs));
        assert(emails.take(i as int) =~= emails);
        assert(countries.take(i as int) =~= countries);
        assert(currencies.take(i as int) =~= currencies);
        assert(dates.take(i as int) =~= dates);
    }
    CustomerPart { spend, payments, delinquent, email, country, currency, created }
}

/// Whether some subscription has the status.
fn has_status(subs: &Vec<SubRow>, status: &str) -> (r: bool)
    ensures
        r == exists|i: int|
            0 <= i < subs_model(subs@).len() && (#[trigger] subs_model(subs@)[i]).status
                == status@,
{
    let mut i: usize = 0;
    while i < subs.len()
        invariant
            i <= subs.len(),
            forall|k: int| 0 <= k < i ==> (#[trigger] subs_model(subs@)[k]).status != status@,
        decreases subs.len() - i,
    {
        assert(subs_model(subs@)[i as int] == subs@[i as int]@);
        if str_eq(subs[i].status.as_str(), status) {
            return true;
        }
        i = i + 1;
    }
    false
}

proof fn lemma_last_largest(s: Seq<int>)
    requires
        s.len() > 0,
    ensures
        0 <= last_largest(s) < s.len(),
        forall|i: int| 0 <= i < s.len() ==> #[trigger] s[i] <= s[last_largest(s)],
        forall|i: int| last_largest(s) < i < s.len() ==> #[trigger] s[i] < s[last_largest(s)],
    decreases s.len(),
{
    if s.len() > 1 {
        let before = s.drop_last();
        lemma_last_largest(before);
        let m = last_largest(before);
        assert forall|i: int| 0 <= i < s.len() implies #[trigger] s[i] <= s[last_largest(s)] by {
            if i < before.len() {
                assert(before[i] == s[i]);
            }
        }
        assert forall|i: int| last_largest(s) < i < s.len() implies #[trigger] s[i]
            < s[last_largest(s)] by {
            if i < before.len() {
                assert(before[i] == s[i]);
            }
        }
    }
}

fn headline(subs: &Vec<SubRow>) -> (r: Option<String>)
    ensures
        text_of(r) == headline_status(subs_model(subs@)),
{
    if subs.len() == 0 {
        return None;
    }
    let ghost rs = ranks(subs_model(subs@));
    let mut best: usize = 0;
    let mut i: usize = 1;
    proof {
        assert(rs.take(1).len() == 1);
    }
    while i < subs.len()
        invariant
            rs == ranks(subs_model(subs@)),
            rs.len() == subs.len(),
            1 <= i <= subs.len(),
            best < i,
            best == last_largest(rs.take(i as int)),
        decreases subs.len() - i,
    {
        proof {
            let next = rs.take(i + 1);
            assert(next.drop_last() =~= rs.take(i as int));
            assert(next.last() == rs[i as int]);
            assert(rs.take(i as int)[best as int] == rs[best as int]);
            assert(rs[i as int] == rank(subs@[i as int].status@));
            assert(rs[best as int] == rank(subs@[best as int].status@));
        }
        if status_rank(subs[i].status.as_str()) >= status_rank(subs[best].status.as_str()) {
            best = i;
        }
        i = i + 1;
    }
    proof {
        assert(rs.take(i as int) =~= rs);
        assert(subs_model(subs@)[best as int] == subs@[best as int]@);
    }
    Some(subs[best].status.clone())
}

/// What the active subscriptions give.
struct ActivePart {
    cancels: bool,
    plan_amount: i64,
    interval: Option<String>,
    mrr: i64,
    started: Option<Timestamp>,
    period_end: Option<Timestamp>,
    trial_end: Option<Timestamp>,
    currency: Option<String>,
}

fn charge_of(s: &SubRow) -> (r: i64)
    requires
        i64::MIN <= period_charge(s@) <= i64::MAX,
    ensures
        r == period_charge(s@),
{
    match charge_per_period(s) {
        Some(n) => n,
        None => 0,
    }
}

fn active_part(active: &Vec<&SubRow>) -> (r: ActivePart)
    requires
        ({
            let subs = active@.map_values(|s: &SubRow| s@);
            &&& sums_within(monthly_values(subs), i64::MIN as int, i64::MAX as int)
            &&& forall|i: int|
                0 <= i < subs.len() ==> i64::MIN <= period_charge(#[trigger] subs[i]) <= i64::MAX
        }),
    ensures
        ({
            let subs = active@.map_values(|s: &SubRow| s@);
            &&& r.cancels == exists|i: int|
                0 <= i < subs.len() && (#[trigger] subs[i]).cancel_at_period_end
            &&& r.plan_amount == match primary(subs) {
                Some(s) => period_charge(s),
                None => 0,
            }
            &&& text_of(r.interval) == match primary(subs) {
                Some(s) => s.interval,
                None => None,
            }
            &&& r.mrr == sum(monthly_values(subs))
            &&& r.started == earliest(subs.map_values(|s: SubRowModel| s.started_at))
            &&& r.period_end == earliest(subs.map_values(|s: SubRowModel| s.current_period_end))
            &&& r.trial_end == earliest(subs.map_values(|s: SubRowModel| s.trial_end))
            &&& text_of(r.currency) == first_text(subs.map_values(|s: SubRowModel| s.currency))
        }),
{
    let ghost subs = active@.map_values(|s: &SubRow| s@);
    let ghost cs = charges(subs);
    let ghost months = monthly_values(subs);
    let ghost starts = subs.map_values(|s: SubRowModel| s.started_at);
    let ghost ends = subs.map_values(|s: SubRowModel| s.current_period_end);
    let ghost trials = subs.map_values(|s: SubRowModel| s.trial_end);
    let ghost currencies = subs.map_values(|s: SubRowModel| s.currency);
    let mut cancels = false;
    let mut mrr: i64 = 0;
    let mut started: Option<Timestamp> = None;
    let mut period_end: Option<Timestamp> = None;
    let mut trial_end: Option<Timestamp> = None;
    let mut currency: Option<String> = None;
    let mut best: usize = 0;
    let mut i: usize = 0;
    proof {
        assert(months.take(0) =~= Seq::empty());
        assert(starts.take(0) =~= Seq::empty());
        assert(ends.take(0) =~= Seq::empty());
        assert(trials.take(0) =~= Seq::empty());
        assert(currencies.take(0) =~= Seq::empty());
    }
    while i < active.len()
        invariant
            subs == active@.map_values(|s: &SubRow| s@),
            cs == charges(subs),
            months == monthly_values(subs),
            starts == subs.map_values(|s: SubRowModel| s.started_at),
            ends == subs.map_values(|s: SubRowModel| s.current_period_end),
            trials == subs.map_values(|s: SubRowModel| s.trial_end),
            currencies == subs.map_values(|s: SubRowModel| s.currency),
            i <= active.len(),
            sums_within(months, i64::MIN as int, i64::MAX as int),
            forall|k: int|
                0 <= k < subs.len() ==> i64::MIN <= period_charge(#[trigger] subs[k]) <= i64::MAX,
            cancels == exists|k: int| 0 <= k < i && (#[trigger] subs[k]).cancel_at_period_end,
            mrr == sum(months.take(i as int)),
            started == earliest(starts.take(i as int)),
            period_end == earliest(ends.take(i as int)),
            trial_end == earliest(trials.take(i as int)),
            text_of(currency) == first_text(currencies.take(i as int)),
            i == 0 ==> best == 0,
            i > 0 ==> best < i && best == last_largest(cs.take(i as int)),
        decreases active.len() - i,
    {
        let s = active[i];
        proof {
            assert(subs[i as int] == s@);
            assert(subs[best as int] == active@[best as int]@);
            assert(months.take(i + 1).drop_last() =~= months.take(i as int));
            assert(starts.take(i + 1).drop_last() =~= starts.take(i as int));
            assert(ends.take(i + 1).drop_last() =~= ends.take(i as int));
            assert(trials.take(i + 1).drop_last() =~= trials.take(i as int));
            assert(currencies.take(i + 1).drop_last() =~= currencies.take(i as int));
            assert(cs.take(i + 1).drop_last() =~= cs.take(i as int));
            assert(cs.take(i + 1).last() == cs[i as int]);
            assert(i64::MIN <= sum(months.take(i + 1)) <= i64::MAX);
            if i > 0 {
                assert(cs.take(i as int)[best as int] == cs[best as int]);
            }
        }
        if i > 0 && charge_of(s) >= charge_of(active[best]) {
            best = i;
        }
        cancels = cancels || s.cancel_at_period_end;
        mrr = mrr + s.monthly_cents;
        started = pick_earliest(started, s.started_at);
        period_end = pick_earliest(period_end, s.current_period_end);
        trial_end = pick_earliest(trial_end, s.trial_end);
        currency = pick_first(currency, &s.currency);
        i = i + 1;
    }
    proof {
        assert(months.take(i as int) =~= months);
        assert(starts.take(i as int) =~= starts);
        assert(ends.take(i as int) =~= ends);
        assert(trials.take(i as int) =~= trials);
        assert(currencies.take(i as int) =~= currencies);
        assert(cs.take(i as int) =~= cs);
    }
    let (plan_amount, interval) = if active.len() > 0 {
        proof {
            assert(subs[best as int] == active@[best as int]@);
        }
        (charge_of(active[best]), active[best].interval.clone())
    } else {
        (0i64, None)
    };
    ActivePart {
        cancels,
        plan_amount,
        interval,
        mrr,
        started,
        period_end,
        trial_end,
        currency,
    }
}

proof fn lemma_present_push(s: Seq<Option<Seq<char>>>, k: int)
    requires
        0 <= k < s.len(),
    ensures
        forall|t: Seq<char>| #[trigger]
            present(s.take(k + 1)).contains(t) <==> present(s.take(k)).contains(t) || s[k] == Some(
                t,
            ),
{
    let next = s.take(k + 1);
    assert(next.drop_last() =~= s.take(k));
    assert(next.last() == s[k]);
    match s[k] {
        Some(u) => {
            let before = present(s.take(k));
            let after = before.push(u);
            assert forall|t: Seq<char>| #[trigger] after.contains(t) <==> before.contains(t) || s[k]
                == Some(t) by {
                if before.contains(t) {
                    let i = choose|i: int| 0 <= i < before.len() && before[i] == t;
                    assert(after[i] == t);
                }
                assert(after[before.len() as int] == u);
                if after.contains(t) {
                    let i = choose|i: int| 0 <= i < after.len() && after[i] == t;
                    if i < before.len() {
                        assert(before[i] == t);
                    }
                }
            }
        },
        None => {},
    }
}

pub open spec fn optional_texts(ids: Seq<&Option<String>>) -> Seq<Option<Seq<char>>> {
    ids.map_values(|id: &Option<String>| text_of(*id))
}

/// The product and the price of each subscription.
fn id_columns<'a>(active: &Vec<&'a SubRow>) -> (r: (
    Vec<&'a Option<String>>,
    Vec<&'a Option<String>>,
))
    ensures
        optional_texts(r.0@) == active@.map_values(|s: &SubRow| s@).map_values(
            |s: SubRowModel| s.product_id,
        ),
        optional_texts(r.1@) == active@.map_values(|s: &SubRow| s@).map_values(
            |s: SubRowModel| s.price_id,
        ),
{
    let mut products: Vec<&'a Option<String>> = Vec::new();
    let mut prices: Vec<&'a Option<String>> = Vec::new();
    let mut i: usize = 0;
    while i < active.len()
        invariant
            i <= active.len(),
            products@.len() == i,
            prices@.len() == i,
            forall|k: int|
                0 <= k < i ==> text_of(*#[trigger] products@[k]) == active@[k]@.product_id,
            forall|k: int| 0 <= k < i ==> text_of(*#[trigger] prices@[k]) == active@[k]@.price_id,
        decreases active.len() - i,
    {
        let s: &'a SubRow = active[i];
        products.push(&s.product_id);
        prices.push(&s.price_id);
        i = i + 1;
    }
    (products, prices)
}

/// The ids that are there, in order and each once.
fn sorted_ids(ids: &Vec<&Option<String>>) -> (r: Vec<String>)
    ensures
        ascending(texts(r@)),
        same_members(texts(r@), present(optional_texts(ids@))),
{
    let ghost all = optional_texts(ids@);
    let mut out: Vec<String> = Vec::new();
    let mut i: usize = 0;
    while i < ids.len()
        invariant
            all == optional_texts(ids@),
            i <= ids.len(),
            ascending(texts(out@)),
            same_members(texts(out@), present(all.take(i as int))),
        decreases ids.len() - i,
    {
        proof {
            lemma_present_push(all, i as int);
            assert(all[i as int] == text_of(*ids@[i as int]));
        }
        match ids[i] {
            Some(id) => insert_ascending(&mut out, id.as_str()),
            None => {},
        }
        i = i + 1;
    }
    proof {
        assert(all.take(i as int) =~= all);
    }
    out
}

/// Puts a member's facts together. A member without a record has none.
pub fn aggregate_member_facts(customers: &Vec<CustomerRow>, subs: &Vec<SubRow>) -> (r: Option<
    MemberFacts,
>)
    requires
        numbers_fit(customers_model(customers@), subs_model(subs@)),
    ensures
        match r {
            Some(m) => {
                &&& customers@.len() > 0 || subs@.len() > 0
                &&& customer_facts(m, customers_model(customers@))
                &&& subscription_facts(m, subs_model(subs@))
                &&& text_of(m.currency) == currency_of(
                    customers_model(customers@),
                    subs_model(subs@),
                )
            },
            None => customers@.len() == 0 && subs@.len() == 0,
        },
{
    if customers.len() == 0 && subs.len() == 0 {
        return None;
    }
    let c = customer_part(customers);
    let active = active_of(subs);
    let a = active_part(&active);
    let domain = match &c.email {
        Some(e) => email_domain(Some(e.as_str())),
        None => None,
    };
    let (products, prices) = id_columns(&active);
    let product_ids = sorted_ids(&products);
    let price_ids = sorted_ids(&prices);
    let count: usize = active.len();
    Some(
        MemberFacts {
            customer_created_at: c.created,
            country_code: c.country,
            currency: pick_first(c.currency, &a.currency),
            email: c.email,
            email_domain: domain,
            is_delinquent: c.delinquent,
            lifetime_spend_cents: c.spend,
            successful_payments: c.payments,
            has_active_subscription: count > 0,
            active_subscription_count: #[verifier::truncate]
            (count as i32),
            subscription_status: headline(subs),
            is_trialing: has_status(subs, "trialing"),
            is_past_due: has_status(subs, "past_due"),
            cancels_at_period_end: a.cancels,
            plan_amount_cents: a.plan_amount,
            billing_interval: a.interval,
            subscription_started_at: a.started,
            current_period_end: a.period_end,
            trial_end: a.trial_end,
            total_mrr_cents: a.mrr,
            product_ids,
            price_ids,
        },
    )
}

fn customers_fit(customers: &Vec<CustomerRow>) -> (r: bool)
    ensures
        r == (sums_within(spends(customers_model(customers@)), i64::MIN as int, i64::MAX as int)
            && sums_within(
            payment_counts(customers_model(customers@)),
            i32::MIN as int,
            i32::MAX as int,
        )),
{
    let ghost cs = customers_model(customers@);
    let mut spend: i64 = 0;
    let mut payments: i32 = 0;
    let mut i: usize = 0;
    proof {
        assert(spends(cs).take(0) =~= Seq::empty());
        assert(payment_counts(cs).take(0) =~= Seq::empty());
    }
    while i < customers.len()
        invariant
            cs == customers_model(customers@),
            i <= customers.len(),
            spend == sum(spends(cs).take(i as int)),
            payments == sum(payment_counts(cs).take(i as int)),
            forall|k: int| 0 <= k <= i ==> i64::MIN <= #[trigger] sum(spends(cs).take(k)) <= i64::MAX,
            forall|k: int|
                0 <= k <= i ==> i32::MIN <= #[trigger] sum(payment_counts(cs).take(k)) <= i32::MAX,
        decreases customers.len() - i,
    {
        proof {
            assert(cs[i as int] == customers@[i as int]@);
            assert(spends(cs).take(i + 1).drop_last() =~= spends(cs).take(i as int));
            assert(payment_counts(cs).take(i + 1).drop_last() =~= payment_counts(cs).take(
                i as int,
            ));
            assert(sum(spends(cs).take(i + 1)) == spend + cs[i as int].lifetime_spend_cents);
            assert(sum(payment_counts(cs).take(i + 1)) == payments
                + cs[i as int].successful_payments);
        }
        match spend.checked_add(customers[i].lifetime_spend_cents) {
            Some(n) => {
                spend = n;
            },
            None => return false,
        }
        match payments.checked_add(customers[i].successful_payments) {
            Some(n) => {
                payments = n;
            },
            None => return false,
        }
        i = i + 1;
    }
    true
}

fn active_fit(active: &Vec<&SubRow>) -> (r: bool)
    ensures
        r == ({
            let subs = active@.map_values(|s: &SubRow| s@);
            &&& sums_within(monthly_values(subs), i64::MIN as int, i64::MAX as int)
            &&& forall|i: int|
                0 <= i < subs.len() ==> i64::MIN <= period_charge(#[trigger] subs[i]) <= i64::MAX
        }),
{
    let ghost subs = active@.map_values(|s: &SubRow| s@);
    let ghost months = monthly_values(subs);
    let mut mrr: i64 = 0;
    let mut i: usize = 0;
    proof {
        assert(months.take(0) =~= Seq::empty());
    }
    while i < active.len()
        invariant
            subs == active@.map_values(|s: &SubRow| s@),
            months == monthly_values(subs),
            i <= active.len(),
            mrr == sum(months.take(i as int)),
            forall|k: int| 0 <= k <= i ==> i64::MIN <= #[trigger] sum(months.take(k)) <= i64::MAX,
            forall|k: int|
                0 <= k < i ==> i64::MIN <= period_charge(#[trigger] subs[k]) <= i64::MAX,
        decreases active.len() - i,
    {
        proof {
            assert(subs[i as int] == active@[i as int]@);
            assert(months.take(i + 1).drop_last() =~= months.take(i as int));
            assert(sum(months.take(i + 1)) == mrr + subs[i as int].monthly_cents);
        }
        if charge_per_period(active[i]).is_none() {
            return false;
        }
        match mrr.checked_add(active[i].monthly_cents) {
            Some(n) => {
                mrr = n;
            },
            None => return false,
        }
        i = i + 1;
    }
    true
}

/// Whether the numbers that are put together stay within the machine's bounds.
pub fn member_numbers_fit(customers: &Vec<CustomerRow>, subs: &Vec<SubRow>) -> (r: bool)
    ensures
        r == numbers_fit(customers_model(customers@), subs_model(subs@)),
{
    let active = active_of(subs);
    customers_fit(customers) && active_fit(&active)
}

/// No subscription of the member has a more favorable status than the headline
/// one, which is the status of one of them.
pub proof fn headline_is_most_favorable(subs: Seq<SubRowModel>)
    requires
        subs.len() > 0,
    ensures
        headline_status(subs) is Some,
        exists|i: int| 0 <= i < subs.len() && Some(#[trigger] subs[i].status) == headline_status(subs),
        forall|i: int|
            0 <= i < subs.len() ==> rank(#[trigger] subs[i].status) <= rank(
                headline_status(subs)->0,
            ),
{
    lemma_last_largest(ranks(subs));
    let m = last_largest(ranks(subs));
    assert(Some(subs[m].status) == headline_status(subs));
    assert forall|i: int| 0 <= i < subs.len() implies rank(#[trigger] subs[i].status) <= rank(
        headline_status(subs)->0,
    ) by {
        assert(ranks(subs)[i] <= ranks(subs)[m]);
    }
}

/// No active subscription costs more in a period than the primary one.
pub proof fn primary_costs_most(active: Seq<SubRowModel>)
    requires
        active.len() > 0,
    ensures
        primary(active) is Some,
        active.contains(primary(active)->0),
        forall|i: int|
            0 <= i < active.len() ==> period_charge(#[trigger] active[i]) <= period_charge(
                primary(active)->0,
            ),
{
    lemma_last_largest(charges(active));
    let m = last_largest(charges(active));
    assert(active[m] == primary(active)->0);
    assert forall|i: int| 0 <= i < active.len() implies period_charge(#[trigger] active[i])
        <= period_charge(primary(active)->0) by {
        assert(charges(active)[i] <= charges(active)[m]);
    }
}

/// The earliest point in time is one of those that are there, and none of them
/// is before it.
pub proof fn earliest_is_first(s: Seq<Option<Timestamp>>)
    ensures
        earliest(s) is None <==> forall|i: int| 0 <= i < s.len() ==> #[trigger] s[i] is None,
        earliest(s) is Some ==> s.contains(earliest(s)),
        earliest(s) matches Some(e) ==> forall|i: int|
            0 <= i < s.len() && (#[trigger] s[i]) is Some ==> e.instant() <= s[i]->0.instant(),
    decreases s.len(),
{
    if s.len() > 0 {
        let before = s.drop_last();
        earliest_is_first(before);
        assert(s[s.len() - 1] == s.last());
        assert forall|i: int| 0 <= i < before.len() implies before[i] == #[trigger] s[i] by {}
        if earliest(before) is Some {
            let k = choose|k: int| 0 <= k < before.len() && before[k] == earliest(before);
            assert(s[k] == earliest(before));
        }
        if earliest(s) is None {
            assert forall|i: int| 0 <= i < s.len() implies #[trigger] s[i] is None by {
                if i < before.len() {
                    assert(before[i] is None);
                }
            }
        }
        if forall|i: int| 0 <= i < s.len() ==> #[trigger] s[i] is None {
            assert(s[s.len() - 1] is None);
            assert forall|i: int| 0 <= i < before.len() implies #[trigger] before[i] is None by {
                assert(s[i] is None);
            }
        }
        if earliest(s) is Some {
            let e = earliest(s)->0;
            assert forall|i: int| 0 <= i < s.len() && (#[trigger] s[i]) is Some implies e.instant()
                <= s[i]->0.instant() by {
                if i < before.len() {
                    assert(before[i] is Some);
                }
            }
        }
    }
}

// ---------------------------------------------------------------------------
// Stored facts as facts
// ---------------------------------------------------------------------------

/// A member's facts as they are read for a rule.
#[derive(Debug)]
pub struct FactsRow {
    pub is_customer: bool,
    pub customer_created_at: Option<Timestamp>,
    pub country_code: Option<String>,
    pub currency: Option<String>,
    pub email_domain: Option<String>,
    pub is_delinquent: bool,
    pub lifetime_spend_cents: i64,
    pub successful_payments: i32,
    pub has_active_subscription: bool,
    pub active_subscription_count: i32,
    pub subscription_status: Option<String>,
    pub is_trialing: bool,
    pub is_past_due: bool,
    pub cancels_at_period_end: bool,
    pub plan_amount_cents: i64,
    pub billing_interval: Option<String>,
    pub subscription_started_at: Option<Timestamp>,
    pub current_period_end: Option<Timestamp>,
    pub total_mrr_cents: i64,
    pub product_ids: Vec<String>,
    pub price_ids: Vec<String>,
}

impl From<FactsRow> for Facts {
    fn from(r: FactsRow) -> (f: Facts) {
        Facts {
            has_active_subscription: r.has_active_subscription,
            subscription_status: r.subscription_status,
            is_trialing: r.is_trialing,
            is_past_due: r.is_past_due,
            cancels_at_period_end: r.cancels_at_period_end,
            active_subscription_count: r.active_subscription_count as i64,
            product_ids: r.product_ids,
            price_ids: r.price_ids,
            plan_amount_cents: r.plan_amount_cents,
            billing_interval: r.billing_interval,
            subscription_started_at: r.subscription_started_at,
            current_period_end: r.current_period_end,
            total_mrr_cents: r.total_mrr_cents,
            is_customer: r.is_customer,
            customer_created_at: r.customer_created_at,
            is_delinquent: r.is_delinquent,
            lifetime_spend_cents: r.lifetime_spend_cents,
            successful_payments: r.successful_payments as i64,
            country_code: r.country_code,
            currency: r.currency,
            email_domain: r.email_domain,
        }
    }
}

impl FromSpecImpl<FactsRow> for Facts {
    open spec fn obeys_from_spec() -> bool {
        true
    }

    open spec fn from_spec(r: FactsRow) -> Facts {
        Facts {
            has_active_subscription: r.has_active_subscription,
            subscription_status: r.subscription_status,
            is_trialing: r.is_trialing,
            is_past_due: r.is_past_due,
            cancels_at_period_end: r.cancels_at_period_end,
            active_subscription_count: r.active_subscription_count as i64,
            product_ids: r.product_ids,
            price_ids: r.price_ids,
            plan_amount_cents: r.plan_amount_cents,
            billing_interval: r.billing_interval,
            subscription_started_at: r.subscription_started_at,
            current_period_end: r.current_period_end,
            total_mrr_cents: r.total_mrr_cents,
            is_customer: r.is_customer,
            customer_created_at: r.customer_created_at,
            is_delinquent: r.is_delinquent,
            lifetime_spend_cents: r.lifetime_spend_cents,
            successful_payments: r.successful_payments as i64,
            country_code: r.country_code,
            currency: r.currency,
            email_domain: r.email_domain,
        }
    }
}

} // verus!
