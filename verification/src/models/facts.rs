//! What is known of one member of one connected account.
use vstd::prelude::*;
use crate::clock::Timestamp;
use crate::text::{text_of, texts};

verus! {

/// One member's facts. Amounts are in the currency's smallest unit.
#[derive(Debug)]
pub struct Facts {
    pub has_active_subscription: bool,
    pub subscription_status: Option<String>,
    pub is_trialing: bool,
    pub is_past_due: bool,
    pub cancels_at_period_end: bool,
    pub active_subscription_count: i64,
    pub product_ids: Vec<String>,
    pub price_ids: Vec<String>,
    pub plan_amount_cents: i64,
    pub billing_interval: Option<String>,
    pub subscription_started_at: Option<Timestamp>,
    pub current_period_end: Option<Timestamp>,
    pub total_mrr_cents: i64,
    pub is_customer: bool,
    pub customer_created_at: Option<Timestamp>,
    pub is_delinquent: bool,
    pub lifetime_spend_cents: i64,
    pub successful_payments: i64,
    pub country_code: Option<String>,
    pub currency: Option<String>,
    pub email_domain: Option<String>,
}

pub struct FactsModel {
    pub has_active_subscription: bool,
    pub subscription_status: Option<Seq<char>>,
    pub is_trialing: bool,
    pub is_past_due: bool,
    pub cancels_at_period_end: bool,
    pub active_subscription_count: i64,
    pub product_ids: Seq<Seq<char>>,
    pub price_ids: Seq<Seq<char>>,
    pub plan_amount_cents: i64,
    pub billing_interval: Option<Seq<char>>,
    pub subscription_started_at: Option<Timestamp>,
    pub current_period_end: Option<Timestamp>,
    pub total_mrr_cents: i64,
    pub is_customer: bool,
    pub customer_created_at: Option<Timestamp>,
    pub is_delinquent: bool,
    pub lifetime_spend_cents: i64,
    pub successful_payments: i64,
    pub country_code: Option<Seq<char>>,
    pub currency: Option<Seq<char>>,
    pub email_domain: Option<Seq<char>>,
}

impl View for Facts {
    type V = FactsModel;

    open spec fn view(&self) -> FactsModel {
        FactsModel {
            has_active_subscription: self.has_active_subscription,
            subscription_status: text_of(self.subscription_status),
            is_trialing: self.is_trialing,
            is_past_due: self.is_past_due,
            cancels_at_period_end: self.cancels_at_period_end,
            active_subscription_count: self.active_subscription_count,
            product_ids: texts(self.product_ids@),
            price_ids: texts(self.price_ids@),
            plan_amount_cents: self.plan_amount_cents,
            billing_interval: text_of(self.billing_interval),
            subscription_started_at: self.subscription_started_at,
            current_period_end: self.current_period_end,
            total_mrr_cents: self.total_mrr_cents,
            is_customer: self.is_customer,
            customer_created_at: self.customer_created_at,
            is_delinquent: self.is_delinquent,
            lifetime_spend_cents: self.lifetime_spend_cents,
            successful_payments: self.successful_payments,
            country_code: text_of(self.country_code),
            currency: text_of(self.currency),
            email_domain: text_of(self.email_domain),
        }
    }
}

/// Nothing known of anybody.
pub open spec fn no_facts() -> FactsModel {
    FactsModel {
        has_active_subscription: false,
        subscription_status: None,
        is_trialing: false,
        is_past_due: false,
        cancels_at_period_end: false,
        active_subscription_count: 0,
        product_ids: Seq::empty(),
        price_ids: Seq::empty(),
        plan_amount_cents: 0,
        billing_interval: None,
        subscription_started_at: None,
        current_period_end: None,
        total_mrr_cents: 0,
        is_customer: false,
        customer_created_at: None,
        is_delinquent: false,
        lifetime_spend_cents: 0,
        successful_payments: 0,
        country_code: None,
        currency: None,
        email_domain: None,
    }
}

impl Default for Facts {
    fn default() -> (r: Facts)
        ensures
            r@ == no_facts(),
    {
        let r = Facts {
            has_active_subscription: false,
            subscription_status: None,
            is_trialing: false,
            is_past_due: false,
            cancels_at_period_end: false,
            active_subscription_count: 0,
            product_ids: Vec::new(),
            price_ids: Vec::new(),
            plan_amount_cents: 0,
            billing_interval: None,
            subscription_started_at: None,
            current_period_end: None,
            total_mrr_cents: 0,
            is_customer: false,
            customer_created_at: None,
            is_delinquent: false,
            lifetime_spend_cents: 0,
            successful_payments: 0,
            country_code: None,
            currency: None,
            email_domain: None,
        };
        assert(r@.product_ids =~= Seq::empty());
        assert(r@.price_ids =~= Seq::empty());
        r
    }
}

} // verus!
