//! Which Discord member a Stripe record belongs to.
//!
//! The member's id is read out of Stripe itself: from the metadata of the
//! subscription or the customer, under the key that the account is configured
//! with or one of the usual ones, or from the reference of the checkout.
use vstd::prelude::*;
use vstd::utf8::is_ascii_chars;
use crate::numeral::{all_digits, is_digit, lemma_run_of_digits, run_length};
use crate::services::stripe::{first_of, CustomerFields, CustomerModel, SubFields, SubModel};
use crate::text::{chars_of, slice_text, text_of, trimmed, white_space};
use crate::text_map::{texts_map, TextMap};

verus! {

/// The shortest and the longest id that is taken as it stands.
pub const MIN_BARE_DIGITS: usize = 5;

pub const MAX_DIGITS: usize = 25;

/// The shortest run of digits that is picked out of a longer text.
pub const MIN_RUN_DIGITS: usize = 15;

/// The first run of at least `min` digits at or after a place, cut after `max`.
pub open spec fn digit_run_from(s: Seq<char>, min: nat, max: nat, from: int) -> Option<Seq<char>>
    decreases s.len() - from,
{
    if from < 0 || from >= s.len() {
        None
    } else if run_length(s, from) >= min {
        let n = if run_length(s, from) <= max {
            run_length(s, from)
        } else {
            max
        };
        Some(s.subrange(from, from + n))
    } else {
        digit_run_from(s, min, max, from + 1)
    }
}

/// The first run of at least `min` digits, cut after `max`.
pub open spec fn digit_run(s: Seq<char>, min: nat, max: nat) -> Option<Seq<char>> {
    digit_run_from(s, min, max, 0)
}

/// The first run of at least `min` characters that Unicode counts as decimal
/// digits, cut after `max`.
pub uninterp spec fn unicode_digit_run(s: Seq<char>, min: nat, max: nat) -> Option<Seq<char>>;

/// `regex::Regex::find` of the pattern `\d{min,max}`: the leftmost match, as
/// long as the pattern allows. In an ASCII text `\d` is one of the ten digits.
#[verifier::external_body]
fn find_digit_run(s: &str, min: usize, max: usize) -> (r: Option<String>)
    requires
        1 <= min <= max <= MAX_DIGITS,
    ensures
        text_of(r) == if is_ascii_chars(s@) {
            digit_run(s@, min as nat, max as nat)
        } else {
            unicode_digit_run(s@, min as nat, max as nat)
        },
{
    let re = regex::Regex::new(&format!(r"\d{{{min},{max}}}")).unwrap();
    re.find(s).map(|m| m.as_str().to_string())
}

/// The id in a text: the whole text without the white space around it where it
/// is a number of a fitting length, and otherwise the first long run of digits
/// in it.
pub open spec fn normalized(raw: Seq<char>) -> Option<Seq<char>> {
    let t = trimmed(raw);
    if t.len() == 0 {
        None
    } else if all_digits(t) && MIN_BARE_DIGITS <= t.len() <= MAX_DIGITS {
        Some(t)
    } else if is_ascii_chars(t) {
        digit_run(t, MIN_RUN_DIGITS as nat, MAX_DIGITS as nat)
    } else {
        unicode_digit_run(t, MIN_RUN_DIGITS as nat, MAX_DIGITS as nat)
    }
}

/// Finds the id in a text.
pub fn normalize_discord_id(raw: &str) -> (r: Option<String>)
    ensures
        text_of(r) == normalized(raw@),
{
    let t = raw.trim();
    let chars = chars_of(t);
    if chars.len() == 0 {
        return None;
    }
    let mut digits = true;
    let mut i: usize = 0;
    while i < chars.len()
        invariant
            chars@ == t@,
            i <= chars.len(),
            digits <==> forall|k: int| 0 <= k < i ==> is_digit(#[trigger] t@[k]),
        decreases chars.len() - i,
    {
        let c = chars[i];
        assert(t@[i as int] == c);
        digits = digits && c >= '0' && c <= '9';
        i = i + 1;
    }
    if digits && chars.len() >= MIN_BARE_DIGITS && chars.len() <= MAX_DIGITS {
        return Some(t.to_owned());
    }
    find_digit_run(t, MIN_RUN_DIGITS, MAX_DIGITS)
}

/// The id under the first of the keys whose value has one.
pub open spec fn resolved_under(
    meta: Map<Seq<char>, Seq<char>>,
    keys: Seq<Seq<char>>,
) -> Option<Seq<char>>
    decreases keys.len(),
{
    if keys.len() == 0 {
        None
    } else if meta.dom().contains(keys.first()) && normalized(meta[keys.first()]) is Some {
        normalized(meta[keys.first()])
    } else {
        resolved_under(meta, keys.drop_first())
    }
}

/// The keys that are tried: the account's own and the usual ones.
pub open spec fn candidate_keys(key: Seq<char>) -> Seq<Seq<char>> {
    seq![key, "discord_user_id"@, "discord_id"@, "discordId"@, "discord"@]
}

/// The id in a record's metadata.
pub open spec fn resolved(meta: Map<Seq<char>, Seq<char>>, key: Seq<char>) -> Option<Seq<char>> {
    resolved_under(meta, candidate_keys(key))
}

/// Finds the id in a record's metadata.
pub fn resolve_from_meta(meta: &TextMap<String>, key: &str) -> (r: Option<String>)
    ensures
        text_of(r) == resolved(texts_map(meta@), key@),
{
    let mut candidates: Vec<&str> = Vec::new();
    candidates.push(key);
    candidates.push("discord_user_id");
    candidates.push("discord_id");
    candidates.push("discordId");
    candidates.push("discord");
    let ghost keys = candidate_keys(key@);
    let ghost map = texts_map(meta@);
    let mut i: usize = 0;
    proof {
        assert(keys.skip(0) =~= keys);
        assert(candidates@.map_values(|k: &str| k@) =~= keys);
    }
    while i < candidates.len()
        invariant
            map == texts_map(meta@),
            keys == candidate_keys(key@),
            candidates@.map_values(|k: &str| k@) =~= keys,
            i <= candidates.len(),
            resolved_under(map, keys) == resolved_under(map, keys.skip(i as int)),
        decreases candidates.len() - i,
    {
        proof {
            assert(keys.skip(i as int).drop_first() =~= keys.skip(i + 1));
            assert(keys.skip(i as int).first() == candidates@[i as int]@);
        }
        match meta.get(candidates[i]) {
            Some(v) => {
                assert(map[candidates@[i as int]@] == v@);
                match normalize_discord_id(v.as_str()) {
                    Some(id) => return Some(id),
                    None => {},
                }
            },
            None => {},
        }
        i = i + 1;
    }
    None
}

// ---------------------------------------------------------------------------
// Customers
// ---------------------------------------------------------------------------

/// What becomes of a customer's row.
#[derive(Debug)]
pub enum CustomerStep {
    /// The customer was deleted: so is the row.
    Remove,
    /// The row is written with the id that the customer's metadata give.
    Store(String),
    /// The metadata give no id: the row is written with the one of a
    /// subscription of the customer, where there is one.
    Inherit,
}

/// The id that a customer ends up with, given the one of a linked subscription.
pub open spec fn customer_link(
    c: CustomerModel,
    key: Seq<char>,
    inherited: Option<Seq<char>>,
) -> Option<Seq<char>> {
    if c.deleted {
        None
    } else {
        first_of(resolved(c.metadata, key), inherited)
    }
}

/// Decides what becomes of a customer's row.
pub fn customer_step(c: &CustomerFields, metadata_key: &str) -> (r: CustomerStep)
    ensures
        match r {
            CustomerStep::Remove => c.deleted && forall|inherited: Option<Seq<char>>| #[trigger]
                customer_link(c@, metadata_key@, inherited) is None,
            CustomerStep::Store(id) => !c.deleted && forall|inherited: Option<Seq<char>>|
                #[trigger]
                customer_link(c@, metadata_key@, inherited) == Some(id@),
            CustomerStep::Inherit => !c.deleted && forall|inherited: Option<Seq<char>>| #[trigger]
                customer_link(c@, metadata_key@, inherited) == inherited,
        },
        !c.deleted ==> match r {
            CustomerStep::Remove => false,
            CustomerStep::Store(id) => resolved(c@.metadata, metadata_key@) == Some(id@),
            CustomerStep::Inherit => resolved(c@.metadata, metadata_key@) is None,
        },
{
    if c.deleted {
        return CustomerStep::Remove;
    }
    match resolve_from_meta(&c.metadata, metadata_key) {
        Some(id) => CustomerStep::Store(id),
        None => CustomerStep::Inherit,
    }
}

// ---------------------------------------------------------------------------
// Subscriptions
// ---------------------------------------------------------------------------

/// The id that a subscription's own records give: its metadata and, where it
/// came with its customer, the customer's.
pub open spec fn own_link(s: SubModel, key: Seq<char>) -> Option<Seq<char>> {
    first_of(
        resolved(s.metadata, key),
        match s.customer {
            Some(c) => resolved(c.metadata, key),
            None => None,
        },
    )
}

/// The id that a checkout's reference gives.
pub open spec fn checkout_link(reference: Option<Seq<char>>) -> Option<Seq<char>> {
    match reference {
        Some(r) => normalized(r),
        None => None,
    }
}

/// The id of a subscription: by its own metadata, by its customer's, by the
/// checkout's reference, by what its customer was linked to when it was stored,
/// and by the customer's row, in this order.
pub open spec fn subscription_link(
    s: SubModel,
    key: Seq<char>,
    reference: Option<Seq<char>>,
    stored: Option<Seq<char>>,
    row: Option<Seq<char>>,
) -> Option<Seq<char>> {
    first_of(
        first_of(own_link(s, key), checkout_link(reference)),
        first_of(
            stored,
            if s.customer_id is Some {
                row
            } else {
                None
            },
        ),
    )
}

/// How a subscription's member is found.
#[derive(Debug)]
pub enum LinkStep {
    /// The member is known.
    Linked(String),
    /// The row of this customer is to be asked.
    AskCustomer(String),
    /// Nothing links the subscription to a member.
    Unlinked,
}

/// Finds a subscription's member as far as the records at hand tell: the
/// subscription, the checkout's reference, and what the customer that came with
/// the subscription was linked to when it was stored.
pub fn link_subscription(
    s: &SubFields,
    metadata_key: &str,
    reference: Option<&str>,
    stored: Option<String>,
) -> (r: LinkStep)
    ensures
        match r {
            LinkStep::Linked(id) => forall|row: Option<Seq<char>>| #[trigger]
                subscription_link(
                    s@,
                    metadata_key@,
                    slice_text(reference),
                    text_of(stored),
                    row,
                ) == Some(id@),
            LinkStep::AskCustomer(customer) => text_of(s.customer_id) == Some(customer@)
                && forall|row: Option<Seq<char>>| #[trigger]
                subscription_link(
                    s@,
                    metadata_key@,
                    slice_text(reference),
                    text_of(stored),
                    row,
                ) == row,
            LinkStep::Unlinked => s.customer_id is None && forall|row: Option<Seq<char>>| #[trigger]
                subscription_link(
                    s@,
                    metadata_key@,
                    slice_text(reference),
                    text_of(stored),
                    row,
                ) is None,
        },
        match r {
            LinkStep::Linked(id) => Some(id@),
            _ => None,
        } == first_of(
            first_of(own_link(s@, metadata_key@), checkout_link(slice_text(reference))),
            text_of(stored),
        ),
{
    match resolve_from_meta(&s.metadata, metadata_key) {
        Some(id) => return LinkStep::Linked(id),
        None => {},
    }
    match &s.customer {
        Some(c) => match resolve_from_meta(&c.metadata, metadata_key) {
            Some(id) => return LinkStep::Linked(id),
            None => {},
        },
        None => {},
    }
    match reference {
        Some(t) => match normalize_discord_id(t) {
            Some(id) => return LinkStep::Linked(id),
            None => {},
        },
        None => {},
    }
    match stored {
        Some(id) => return LinkStep::Linked(id),
        None => {},
    }
    match &s.customer_id {
        Some(customer) => LinkStep::AskCustomer(customer.clone()),
        None => LinkStep::Unlinked,
    }
}

/// The id that a subscription ends up with: the one that was found or, failing
/// that, the one of its own row, which is kept.
pub fn effective_link(found: Option<String>, row: Option<String>) -> (r: Option<String>)
    ensures
        text_of(r) == first_of(text_of(found), text_of(row)),
{
    match found {
        Some(id) => Some(id),
        None => row,
    }
}

/// A subscription that was linked stays linked.
pub proof fn known_link_is_kept(
    s: SubModel,
    key: Seq<char>,
    reference: Option<Seq<char>>,
    stored: Option<Seq<char>>,
    row: Option<Seq<char>>,
    own_row: Option<Seq<char>>,
)
    requires
        own_row is Some,
    ensures
        first_of(subscription_link(s, key, reference, stored, row), own_row) is Some,
{
}

/// To link a subscription again, once the member that was found has been stored
/// in its row, gives the same member. The customer may have been given that
/// member too, and the checkout need not be known any more.
pub proof fn linking_again_changes_nothing(
    s: SubModel,
    key: Seq<char>,
    reference: Option<Seq<char>>,
    stored: Option<Seq<char>>,
    row: Option<Seq<char>>,
    own_row: Option<Seq<char>>,
    reference_later: Option<Seq<char>>,
    stored_later: Option<Seq<char>>,
    row_later: Option<Seq<char>>,
)
    requires
        reference_later is None || reference_later == reference,
        ({
            let member = first_of(subscription_link(s, key, reference, stored, row), own_row);
            &&& stored_later is None || stored_later == member
            &&& row_later is None || row_later == member
        }),
    ensures
        ({
            let member = first_of(subscription_link(s, key, reference, stored, row), own_row);
            first_of(
                subscription_link(s, key, reference_later, stored_later, row_later),
                member,
            ) == member
        }),
{
}

/// The records are believed in this order: the subscription, its customer, the
/// checkout, and what was stored before.
pub proof fn links_have_their_order(
    s: SubModel,
    key: Seq<char>,
    reference: Option<Seq<char>>,
    stored: Option<Seq<char>>,
    row: Option<Seq<char>>,
)
    ensures
        resolved(s.metadata, key) is Some ==> subscription_link(s, key, reference, stored, row)
            == resolved(s.metadata, key),
        resolved(s.metadata, key) is None && s.customer is Some && resolved(
            s.customer->0.metadata,
            key,
        ) is Some ==> subscription_link(s, key, reference, stored, row) == resolved(
            s.customer->0.metadata,
            key,
        ),
        own_link(s, key) is None && checkout_link(reference) is Some ==> subscription_link(
            s,
            key,
            reference,
            stored,
            row,
        ) == checkout_link(reference),
        own_link(s, key) is None && checkout_link(reference) is None && stored is None
            && s.customer_id is Some ==> subscription_link(s, key, reference, stored, row) == row,
{
}

// ---------------------------------------------------------------------------
// What an id looks like
// ---------------------------------------------------------------------------

proof fn lemma_solid_is_trimmed(s: Seq<char>)
    requires
        s.len() > 0 ==> !white_space(s[0]) && !white_space(s[s.len() - 1]),
    ensures
        trimmed(s) == s,
{
}

/// A bare number of a fitting length is an id.
pub proof fn bare_number_is_an_id(id: Seq<char>)
    requires
        all_digits(id),
        MIN_BARE_DIGITS <= id.len() <= MAX_DIGITS,
    ensures
        normalized(id) == Some(id),
{
    assert(is_digit(id[0]));
    assert(is_digit(id[id.len() - 1]));
    lemma_solid_is_trimmed(id);
}

/// A mention has the id of the one that it mentions.
pub proof fn mention_has_its_id(id: Seq<char>)
    requires
        all_digits(id),
        MIN_RUN_DIGITS <= id.len() <= MAX_DIGITS,
    ensures
        normalized("<@"@ + id + ">"@) == Some(id),
{
    reveal_strlit("<@");
    reveal_strlit(">");
    let s = "<@"@ + id + ">"@;
    assert("<@"@.len() == 2 && ">"@.len() == 1);
    assert(s[0] == '<' && s[1] == '@' && s[s.len() - 1] == '>');
    lemma_solid_is_trimmed(s);
    assert(!is_digit(s[0]));
    assert(!all_digits(s));
    assert forall|i: int| 0 <= i < s.len() implies '\0' <= #[trigger] s[i] <= '\u{7f}' by {
        if 2 <= i < 2 + id.len() {
            assert(s[i] == id[i - 2]);
            assert(is_digit(id[i - 2]));
        }
    }
    assert forall|i: int| 2 <= i < 2 + id.len() implies is_digit(#[trigger] s[i]) by {
        assert(s[i] == id[i - 2]);
        assert(is_digit(id[i - 2]));
    }
    lemma_run_of_digits(s, 2, id.len());
    let min = MIN_RUN_DIGITS as nat;
    let max = MAX_DIGITS as nat;
    assert(run_length(s, 0) == 0);
    assert(run_length(s, 1) == 0);
    assert(digit_run_from(s, min, max, 2) == Some(s.subrange(2, 2 + id.len() as int)));
    assert(s.subrange(2, 2 + id.len() as int) =~= id);
    assert(digit_run_from(s, min, max, 1) == digit_run_from(s, min, max, 2));
    assert(digit_run_from(s, min, max, 0) == digit_run_from(s, min, max, 1));
}

/// The account's own key is tried first.
pub proof fn own_key_comes_first(meta: Map<Seq<char>, Seq<char>>, key: Seq<char>)
    requires
        meta.dom().contains(key),
        normalized(meta[key]) is Some,
    ensures
        resolved(meta, key) == normalized(meta[key]),
{
    assert(candidate_keys(key).first() == key);
}

} // verus!
