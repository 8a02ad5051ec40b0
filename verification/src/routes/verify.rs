//! The member's own page.
use vstd::prelude::*;
use vstd::string::{StrSliceExecFns, StringExecFns};
use crate::clock::Timestamp;
use crate::json::{
    entries_model, items_model, lemma_items_model_push, put, text_json, text_or_null, text_value,
    Json, JsonValue,
};
use crate::routes::admin::{time_json, time_value};
use crate::text::{
    chars_of, cut, cut_str, find_chars, found_at, lemma_cut, lemma_cut_at, replace_str, replaced,
    strip_end, stripped_end, text_of,
};
use crate::url::{url_encode, url_encoded};

verus! {

/// Fills in the member's page.
pub fn verify_page_html(template: &str, base_url: &str) -> (r: String)
    ensures
        r@ == replaced(template@, "{{BASE_URL}}"@, base_url@),
{
    proof {
        reveal_strlit("{{BASE_URL}}");
    }
    replace_str(template, "{{BASE_URL}}", base_url)
}

/// What a member is to one account.
#[derive(Debug)]
pub struct MembershipRow {
    pub display_name: String,
    pub livemode: bool,
    pub has_active_subscription: bool,
    pub subscription_status: Option<String>,
    pub is_trialing: bool,
    pub cancels_at_period_end: bool,
    pub plan_amount_cents: i64,
    pub currency: Option<String>,
    pub total_mrr_cents: i64,
    pub current_period_end: Option<Timestamp>,
}

/// The document of a membership.
pub open spec fn membership_document(m: MembershipRow) -> Json {
    Json::Object(
        seq![
            ("account"@, Json::Str(m.display_name@)),
            ("livemode"@, Json::Bool(m.livemode)),
            ("has_active_subscription"@, Json::Bool(m.has_active_subscription)),
            ("status"@, text_json(text_of(m.subscription_status))),
            ("is_trialing"@, Json::Bool(m.is_trialing)),
            ("cancels_at_period_end"@, Json::Bool(m.cancels_at_period_end)),
            ("plan_amount_cents"@, Json::Int(m.plan_amount_cents as int)),
            ("currency"@, text_json(text_of(m.currency))),
            ("total_mrr_cents"@, Json::Int(m.total_mrr_cents as int)),
            ("current_period_end"@, time_json(m.current_period_end)),
        ],
    )
}

fn membership_json(m: &MembershipRow) -> (r: JsonValue)
    ensures
        r@ == membership_document(*m),
{
    let mut e: Vec<(String, JsonValue)> = Vec::new();
    proof {
        assert(entries_model(e@) =~= Seq::empty());
    }
    put(&mut e, "account", text_value(m.display_name.as_str()));
    put(&mut e, "livemode", JsonValue::Bool(m.livemode));
    put(&mut e, "has_active_subscription", JsonValue::Bool(m.has_active_subscription));
    put(&mut e, "status", text_or_null(&m.subscription_status));
    put(&mut e, "is_trialing", JsonValue::Bool(m.is_trialing));
    put(&mut e, "cancels_at_period_end", JsonValue::Bool(m.cancels_at_period_end));
    put(&mut e, "plan_amount_cents", JsonValue::Int(m.plan_amount_cents as i128));
    put(&mut e, "currency", text_or_null(&m.currency));
    put(&mut e, "total_mrr_cents", JsonValue::Int(m.total_mrr_cents as i128));
    put(&mut e, "current_period_end", time_value(m.current_period_end));
    proof {
        assert(entries_model(e@) =~= membership_document(*m)->Object_0);
    }
    JsonValue::Object(e)
}

/// The document of a member's status. `username` is the name of the one who is
/// signed in.
pub open spec fn status_document(
    username: Option<Seq<char>>,
    memberships: Seq<MembershipRow>,
) -> Json {
    Json::Object(
        seq![
            ("signed_in_discord"@, Json::Bool(username is Some)),
            ("discord_username"@, text_json(username)),
            (
                "memberships"@,
                Json::Array(memberships.map_values(|m: MembershipRow| membership_document(m))),
            ),
        ],
    )
}

/// Answers a member's status.
pub fn status_json(username: &Option<String>, memberships: &Vec<MembershipRow>) -> (r: JsonValue)
    ensures
        r@ == status_document(text_of(*username), memberships@),
{
    let ghost all = memberships@.map_values(|m: MembershipRow| membership_document(m));
    let mut items: Vec<JsonValue> = Vec::new();
    let mut i: usize = 0;
    while i < memberships.len()
        invariant
            all == memberships@.map_values(|m: MembershipRow| membership_document(m)),
            i <= memberships.len(),
            items_model(items@) =~= all.take(i as int),
        decreases memberships.len() - i,
    {
        let v = membership_json(&memberships[i]);
        proof {
            lemma_items_model_push(items@, v);
        }
        items.push(v);
        i = i + 1;
    }
    proof {
        assert(all.take(i as int) =~= all);
    }
    let mut e: Vec<(String, JsonValue)> = Vec::new();
    proof {
        assert(entries_model(e@) =~= Seq::empty());
    }
    put(&mut e, "signed_in_discord", JsonValue::Bool(username.is_some()));
    put(&mut e, "discord_username", text_or_null(username));
    put(&mut e, "memberships", JsonValue::Array(items));
    proof {
        assert(entries_model(e@) =~= status_document(text_of(*username), memberships@)->Object_0);
    }
    JsonValue::Object(e)
}

/// Answers a request to look at the member's roles again.
pub fn refreshed_json() -> (r: JsonValue)
    ensures
        r@ == Json::Object(seq![("refreshed"@, Json::Bool(true))]),
{
    let mut e: Vec<(String, JsonValue)> = Vec::new();
    proof {
        assert(entries_model(e@) =~= Seq::empty());
    }
    put(&mut e, "refreshed", JsonValue::Bool(true));
    proof {
        assert(entries_model(e@) =~= seq![("refreshed"@, Json::Bool(true))]);
    }
    JsonValue::Object(e)
}

/// The path of an address, without slashes at its end: what follows the host.
/// An address without a scheme, or without a path, has none.
pub open spec fn path_of(address: Seq<char>) -> Seq<char> {
    match found_at(address, "://"@, 0) {
        None => Seq::empty(),
        Some(i) => match cut(address.skip(i + 3), '/') {
            None => Seq::empty(),
            Some((_, path)) => stripped_end(seq!['/'] + path, '/'),
        },
    }
}

/// The path of an address.
pub fn path_only(base_url: &str) -> (r: String)
    ensures
        r@ == path_of(base_url@),
{
    let chars = chars_of(base_url);
    let scheme = chars_of("://");
    proof {
        reveal_strlit("://");
        assert(scheme.len() == 3);
    }
    match find_chars(&chars, &scheme, 0) {
        Some(i) => {
            let rest = base_url.substring_char(i + 3, chars.len());
            proof {
                assert(rest@ =~= base_url@.skip(i + 3));
            }
            match cut_str(rest, '/') {
                Some((_, path)) => {
                    let mut full = String::new();
                    full.push('/');
                    full.append(path);
                    proof {
                        assert(full@ =~= seq!['/'] + path@);
                    }
                    strip_end(full.as_str(), '/').to_owned()
                },
                None => {
                    let empty = String::new();
                    proof {
                        assert(empty@ =~= Seq::empty());
                    }
                    empty
                },
            }
        },
        None => {
            let empty = String::new();
            proof {
                assert(empty@ =~= Seq::empty());
            }
            empty
        },
    }
}

/// A character more at the end leaves the first occurrence where it was. Where
/// there was none, there is none now but at the very end.
proof fn lemma_found_push(a: Seq<char>, needle: Seq<char>, c: char, from: int)
    requires
        needle.len() > 0,
        0 <= from,
    ensures
        found_at(a, needle, from) matches Some(i) ==> found_at(a.push(c), needle, from) == Some(i)
            && from <= i <= a.len() - needle.len(),
        found_at(a, needle, from) is None ==> (found_at(a.push(c), needle, from) matches Some(i)
            ==> i == a.len() + 1 - needle.len()),
    decreases a.len() + 1 - from,
{
    let b = a.push(c);
    if from > a.len() - needle.len() {
        if from == b.len() - needle.len() {
            assert(found_at(b, needle, from + 1) is None);
        }
    } else {
        assert(b.subrange(from, from + needle.len()) =~= a.subrange(from, from + needle.len()));
        lemma_found_push(a, needle, c, from + 1);
    }
}

/// A slash at the end of an address does not change its path.
pub proof fn slash_at_the_end_is_ignored(address: Seq<char>)
    ensures
        path_of(address + "/"@) == path_of(address),
{
    reveal_strlit("/");
    reveal_strlit("://");
    let needle = "://"@;
    assert(needle.len() == 3);
    let longer = address.push('/');
    assert(address + "/"@ =~= longer);
    lemma_found_push(address, needle, '/', 0);
    match found_at(address, needle, 0) {
        Some(i) => {
            let rest = address.skip(i + 3);
            assert(longer.skip(i + 3) =~= rest.push('/'));
            lemma_cut(rest, '/');
            match cut(rest, '/') {
                Some((host, path)) => {
                    assert(rest.push('/') =~= host + seq!['/'] + path.push('/'));
                    lemma_cut_at(host, '/', path.push('/'));
                    let full = seq!['/'] + path;
                    assert(seq!['/'] + path.push('/') =~= full.push('/'));
                    assert(full.push('/').drop_last() =~= full);
                },
                None => {
                    assert(rest.push('/') =~= rest + seq!['/'] + Seq::empty());
                    lemma_cut_at(rest, '/', Seq::empty());
                    assert(seq!['/'] + Seq::empty() =~= seq!['/']);
                    assert(seq!['/'].drop_last() =~= Seq::empty());
                    reveal_with_fuel(stripped_end, 2);
                },
            }
        },
        None => {
            match found_at(longer, needle, 0) {
                Some(i) => {
                    assert(longer.skip(i + 3) =~= Seq::empty());
                },
                None => {},
            }
        },
    }
}

/// The address at which a member signs in and is then sent back to their page.
pub fn login_url(auth_gateway_url: &str, base_url: &str) -> (r: String)
    ensures
        r@ == auth_gateway_url@ + "/auth/login?return_to="@ + url_encoded(
            path_of(base_url@) + "/verify"@,
        ),
{
    let mut return_to = path_only(base_url);
    return_to.append("/verify");
    let mut out = auth_gateway_url.to_owned();
    out.append("/auth/login?return_to=");
    out.append(url_encode(return_to.as_str()).as_str());
    out
}

} // verus!
