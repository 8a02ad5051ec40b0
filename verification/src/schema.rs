//! How the plugin presents itself to the dashboard: as a page in a frame.
use vstd::prelude::*;
use vstd::string::StringExecFns;
use crate::json::{entries_model, put, text_value, Json, JsonValue};

verus! {

/// The address of a role link's configuration page.
pub open spec fn embed_url(base_url: Seq<char>, guild_id: Seq<char>, role_id: Seq<char>) -> Seq<
    char,
> {
    base_url + "/admin/"@ + guild_id + "/role/"@ + role_id
}

/// Tells the dashboard which page to show. It appends its token to the address.
pub fn build_iframe_config(base_url: &str, guild_id: &str, role_id: &str) -> (r: JsonValue)
    ensures
        r@ == Json::Object(
            seq![
                ("version"@, Json::Int(1)),
                ("ui_mode"@, Json::Str("iframe"@)),
                ("name"@, Json::Str("Stripe Subscriber Role"@)),
                (
                    "description"@,
                    Json::Str(
                        "Grant Discord roles from Stripe — active subscribers, specific plans, trials, lifetime spend, and more, with rich condition logic."@,
                    ),
                ),
                ("embed_url"@, Json::Str(embed_url(base_url@, guild_id@, role_id@))),
            ],
        ),
{
    let mut url = base_url.to_owned();
    url.append("/admin/");
    url.append(guild_id);
    url.append("/role/");
    url.append(role_id);
    let mut e: Vec<(String, JsonValue)> = Vec::new();
    proof {
        assert(entries_model(e@) =~= Seq::empty());
    }
    put(&mut e, "version", JsonValue::Int(1));
    put(&mut e, "ui_mode", text_value("iframe"));
    put(&mut e, "name", text_value("Stripe Subscriber Role"));
    put(
        &mut e,
        "description",
        text_value(
            "Grant Discord roles from Stripe — active subscribers, specific plans, trials, lifetime spend, and more, with rich condition logic.",
        ),
    );
    put(&mut e, "embed_url", JsonValue::Str(url));
    proof {
        assert(entries_model(e@) =~= seq![
            ("version"@, Json::Int(1)),
            ("ui_mode"@, Json::Str("iframe"@)),
            ("name"@, Json::Str("Stripe Subscriber Role"@)),
            (
                "description"@,
                Json::Str(
                    "Grant Discord roles from Stripe — active subscribers, specific plans, trials, lifetime spend, and more, with rich condition logic."@,
                ),
            ),
            ("embed_url"@, Json::Str(embed_url(base_url@, guild_id@, role_id@))),
        ]);
    }
    JsonValue::Object(e)
}

/// Answers a configuration that was sent: it is taken and has no effect.
pub fn accept_empty_config() -> (r: JsonValue)
    ensures
        r@ == Json::Object(seq![("success"@, Json::Bool(true))]),
{
    let mut e: Vec<(String, JsonValue)> = Vec::new();
    proof {
        assert(entries_model(e@) =~= Seq::empty());
    }
    put(&mut e, "success", JsonValue::Bool(true));
    proof {
        assert(entries_model(e@) =~= seq![("success"@, Json::Bool(true))]);
    }
    JsonValue::Object(e)
}

} // verus!
