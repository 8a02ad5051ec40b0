//! What is asked of Stripe, and what an account is called.
//!
//! Each law speaks of what a function was given and of what it gave.
use vstd::prelude::*;
use vstd::utf8::encode_utf8;
use crate::digest::sha256_of;
use crate::error::AppError;
use crate::numeral::{decimal, hex_text};
use crate::services::evaluation_laws::is_part;
use crate::services::stripe::{
    describe_account, describe_by_key, page_query, prices_query, products_query,
    subscription_path, subscription_query, subscriptions_query, synth_account_id, AccountInfo, Pager,
};
use crate::services::stripe_wire::RawAccount;
use crate::text::{has_substring, occurs_at, text_of};

verus! {

// ---------------------------------------------------------------------------
// Queries
// ---------------------------------------------------------------------------

/// The query has the value under the name.
pub open spec fn asks(q: Vec<(&'static str, String)>, name: Seq<char>, value: Seq<char>) -> bool {
    exists|i: int| 0 <= i < q@.len() && (#[trigger] q@[i]).0@ == name && q@[i].1@ == value
}

spec fn asks_at(q: Vec<(&'static str, String)>, i: int, name: Seq<char>, value: Seq<char>) -> bool {
    0 <= i < q@.len() && q@[i].0@ == name && q@[i].1@ == value
}

proof fn lemma_hundred()
    ensures
        decimal(100) == "100"@,
{
    reveal_strlit("100");
    assert(decimal(1) =~= seq!['1']);
    assert(decimal(10) =~= seq!['1', '0']);
    assert(decimal(100) =~= seq!['1', '0', '0']);
    assert("100"@ =~= seq!['1', '0', '0']);
}

proof fn lemma_model(q: Vec<(&'static str, String)>, model: Seq<(Seq<char>, Seq<char>)>)
    requires
        crate::services::stripe::query_model(q@) == model,
    ensures
        q@.len() == model.len(),
        forall|i: int|
            0 <= i < model.len() ==> asks_at(q, i, (#[trigger] model[i]).0, model[i].1) && asks(
                q,
                model[i].0,
                model[i].1,
            ),
{
    assert(crate::services::stripe::query_model(q@).len() == q@.len());
    assert forall|i: int| 0 <= i < model.len() implies asks_at(
        q,
        i,
        (#[trigger] model[i]).0,
        model[i].1,
    ) && asks(q, model[i].0, model[i].1) by {
        assert(q@[i].0@ == model[i].0 && q@[i].1@ == model[i].1);
    }
}

/// The subscriptions are asked for a hundred at a time and whatever their status,
/// with their customers and prices, behind the given one.
pub proof fn all_subscriptions_are_asked_for(
    after: Option<String>,
    q: Vec<(&'static str, String)>,
)
    requires
        call_ensures(subscriptions_query, (&after,), q),
    ensures
        asks(q, "status"@, "all"@),
        asks(q, "limit"@, "100"@),
        asks(q, "expand[]"@, "data.customer"@),
        asks(q, "expand[]"@, "data.items.data.price"@),
        after matches Some(id) ==> q@.len() == 5 && asks(q, "starting_after"@, id@),
        after is None ==> q@.len() == 4,
{
    lemma_hundred();
    let m = crate::services::stripe::subscriptions_params(text_of(after));
    lemma_model(q, m);
    assert(m[0] == ("status"@, "all"@));
    assert(m[1] == ("limit"@, "100"@));
    assert(m[2] == ("expand[]"@, "data.customer"@));
    assert(m[3] == ("expand[]"@, "data.items.data.price"@));
    match after {
        Some(id) => {
            assert(m[4] == ("starting_after"@, id@));
        },
        None => {},
    }
}

/// The other lists are asked for a hundred at a time, behind the given one.
pub proof fn pages_are_asked_for(after: Option<String>, q: Vec<(&'static str, String)>)
    requires
        call_ensures(page_query, (&after,), q),
    ensures
        asks(q, "limit"@, "100"@),
        after matches Some(id) ==> q@.len() == 2 && asks(q, "starting_after"@, id@),
        after is None ==> q@.len() == 1,
{
    lemma_hundred();
    let m = crate::services::stripe::page_params(text_of(after));
    lemma_model(q, m);
    assert(m[0] == ("limit"@, "100"@));
    match after {
        Some(id) => {
            assert(m[1] == ("starting_after"@, id@));
        },
        None => {},
    }
}

/// Only products and prices that are active are asked for.
pub proof fn active_products_and_prices_are_asked_for(
    products: Vec<(&'static str, String)>,
    prices: Vec<(&'static str, String)>,
)
    requires
        call_ensures(products_query, (), products),
        call_ensures(prices_query, (), prices),
    ensures
        asks(products, "active"@, "true"@),
        asks(products, "limit"@, "100"@),
        asks(prices, "active"@, "true"@),
        asks(prices, "limit"@, "100"@),
        asks(prices, "expand[]"@, "data.product"@),
{
    lemma_hundred();
    let m = seq![("active"@, "true"@), ("limit"@, "100"@)];
    let n = seq![("active"@, "true"@), ("limit"@, "100"@), ("expand[]"@, "data.product"@)];
    lemma_model(products, m);
    lemma_model(prices, n);
    assert(m[0] == ("active"@, "true"@) && m[1] == ("limit"@, "100"@));
    assert(n[0] == ("active"@, "true"@) && n[1] == ("limit"@, "100"@) && n[2] == (
        "expand[]"@,
        "data.product"@,
    ));
}

/// One subscription is asked for under its id, with its customer and prices.
pub proof fn subscription_is_asked_for_by_id(
    id: &str,
    path: String,
    q: Vec<(&'static str, String)>,
)
    requires
        call_ensures(subscription_path, (id,), path),
        call_ensures(subscription_query, (), q),
    ensures
        path@ == "/v1/subscriptions/"@ + id@,
        asks(q, "expand[]"@, "customer"@),
        asks(q, "expand[]"@, "items.data.price"@),
{
    let m = seq![("expand[]"@, "customer"@), ("expand[]"@, "items.data.price"@)];
    lemma_model(q, m);
    assert(m[0] == ("expand[]"@, "customer"@) && m[1] == ("expand[]"@, "items.data.price"@));
}

/// Pages are asked for as long as the list goes on, and no more than two thousand
/// of them.
pub proof fn pages_are_asked_for_while_there_are_any(p: Pager, r: bool)
    requires
        call_ensures(Pager::wants_page, (&p,), r),
    ensures
        r <==> p.open && p.pages < 2000,
{
}

// ---------------------------------------------------------------------------
// The account behind a key
// ---------------------------------------------------------------------------

proof fn lemma_live(key: Seq<char>)
    ensures
        has_substring(key, "_live_"@) == is_part("_live_"@, key),
{
    let part = "_live_"@;
    if has_substring(key, part) {
        let k = choose|k: int| occurs_at(key, part, k);
        assert(key.subrange(k, k + part.len() as int) == part);
    }
    if is_part(part, key) {
        let k = choose|k: int|
            0 <= k <= k + part.len() <= key.len() && #[trigger] key.subrange(
                k,
                k + part.len() as int,
            ) == part;
        assert(occurs_at(key, part, k));
    }
}

/// The id that stands for an account tells its mode and the start of the key's
/// digest.
pub open spec fn stands_for(id: Seq<char>, key: Seq<char>, live: bool) -> bool {
    id == "acct_key_"@ + (if live {
        "live"@
    } else {
        "test"@
    }) + "_"@ + hex_text(sha256_of(encode_utf8(key))).take(16)
}

pub proof fn made_up_id_is_of_the_key(key: &str, live: bool, id: String)
    requires
        call_ensures(synth_account_id, (key, live), id),
    ensures
        stands_for(id@, key@, live),
{
}

/// An account is live exactly where its key says so. It has its own id, or one
/// made of the key, and is called by its dashboard's name, the business's, its
/// address or its id, the first of them that is there.
pub proof fn account_is_described_as_it_is(a: RawAccount, key: &str, r: AccountInfo)
    requires
        call_ensures(describe_account, (a, key), r),
    ensures
        r.livemode <==> is_part("_live_"@, key@),
        text_of(r.country) == text_of(a.country),
        a.id matches Some(id) ==> r.account_id@ == id@,
        a.id is None ==> stands_for(r.account_id@, key@, r.livemode),
        a.dashboard_name() matches Some(n) ==> r.display_name@ == n,
        a.dashboard_name() is None ==> {
            &&& a.business_name() matches Some(n) ==> r.display_name@ == n
            &&& a.business_name() is None ==> {
                &&& a.email matches Some(e) ==> r.display_name@ == e@
                &&& a.email is None && a.id is Some ==> r.display_name@ == a.id->0@
            }
        },
{
    lemma_live(key@);
    let described = crate::services::stripe::described(a, key@);
    assert(r@ == described);
}

/// An account that the key may not read is described by the key, provided that
/// the key may read customers.
pub proof fn unreadable_account_is_described_by_its_key(
    key: &str,
    customers: Result<(), String>,
    r: Result<AccountInfo, AppError>,
)
    requires
        call_ensures(describe_by_key, (key, customers), r),
    ensures
        r is Ok <==> customers is Ok,
        r is Err ==> r->Err_0 is BadRequest,
        r matches Ok(a) ==> {
            &&& a.livemode <==> is_part("_live_"@, key@)
            &&& stands_for(a.account_id@, key@, a.livemode)
            &&& a.country is None
        },
{
    lemma_live(key@);
    match r {
        Ok(a) => {
            assert(a@ == crate::services::stripe::described_by_key(key@));
        },
        Err(_) => {},
    }
}

} // verus!
