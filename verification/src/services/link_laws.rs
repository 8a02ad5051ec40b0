//! What links a Stripe record to a member.
//!
//! Each law speaks of what a function was given and of what it gave.
use vstd::prelude::*;
use vstd::utf8::is_ascii_chars;
use crate::numeral::{all_digits, is_digit, lemma_run_of_digits, run_length};
use crate::services::ingest::{
    candidate_keys, customer_step, digit_run_from, effective_link,
    link_subscription, normalize_discord_id, normalized, resolve_from_meta, resolved,
    resolved_under, CustomerStep, LinkStep,
};
use crate::services::stripe::{CustomerFields, SubFields};
use crate::text::{text_of, trimmed, trimmed_end, trimmed_start, white_space};
use crate::text_map::TextMap;

verus! {

// ---------------------------------------------------------------------------
// The id in a text
// ---------------------------------------------------------------------------

/// All of it is white space.
pub open spec fn blank(s: Seq<char>) -> bool {
    forall|i: int| 0 <= i < s.len() ==> white_space(#[trigger] s[i])
}

proof fn lemma_trimmed_start(blanks: Seq<char>, s: Seq<char>)
    requires
        blank(blanks),
        s.len() > 0 ==> !white_space(s[0]),
    ensures
        trimmed_start(blanks + s) == s,
    decreases blanks.len(),
{
    let all = blanks + s;
    if blanks.len() > 0 {
        assert(all.first() == blanks[0]);
        assert(all.drop_first() =~= blanks.drop_first() + s);
        assert forall|i: int| 0 <= i < blanks.drop_first().len() implies white_space(
            #[trigger] blanks.drop_first()[i],
        ) by {
            assert(white_space(blanks[i + 1]));
        }
        lemma_trimmed_start(blanks.drop_first(), s);
    } else {
        assert(all =~= s);
    }
}

proof fn lemma_trimmed_end(s: Seq<char>, blanks: Seq<char>)
    requires
        blank(blanks),
        s.len() > 0 ==> !white_space(s[s.len() - 1]),
    ensures
        trimmed_end(s + blanks) == s,
    decreases blanks.len(),
{
    let all = s + blanks;
    if blanks.len() > 0 {
        assert(all.last() == blanks[blanks.len() - 1]);
        assert(all.drop_last() =~= s + blanks.drop_last());
        assert forall|i: int| 0 <= i < blanks.drop_last().len() implies white_space(
            #[trigger] blanks.drop_last()[i],
        ) by {
            assert(white_space(blanks[i]));
        }
        lemma_trimmed_end(s, blanks.drop_last());
    } else {
        assert(all =~= s);
    }
}

proof fn lemma_trimmed(before: Seq<char>, s: Seq<char>, after: Seq<char>)
    requires
        blank(before),
        blank(after),
        s.len() > 0,
        !white_space(s[0]),
        !white_space(s[s.len() - 1]),
    ensures
        trimmed(before + s + after) == s,
{
    assert(before + s + after =~= before + (s + after));
    assert((s + after)[0] == s[0]);
    lemma_trimmed_start(before, s + after);
    lemma_trimmed_end(s, after);
}

/// A number of five to twenty-five digits, with white space around it or none,
/// is an id.
pub proof fn number_is_taken_as_an_id(
    raw: &str,
    r: Option<String>,
    before: Seq<char>,
    id: Seq<char>,
    after: Seq<char>,
)
    requires
        call_ensures(normalize_discord_id, (raw,), r),
        raw@ == before + id + after,
        blank(before),
        blank(after),
        all_digits(id),
        5 <= id.len() <= 25,
    ensures
        text_of(r) == Some(id),
{
    assert(is_digit(id[0]));
    assert(is_digit(id[id.len() - 1]));
    lemma_trimmed(before, id, after);
}

proof fn lemma_first_run(s: Seq<char>, from: int, at: int)
    requires
        0 <= from <= at < s.len(),
        run_length(s, at) >= 15,
        forall|i: int| from <= i < at ==> #[trigger] run_length(s, i) < 15,
    ensures
        digit_run_from(s, 15, 25, from) == Some(
            s.subrange(
                at,
                at + if run_length(s, at) <= 25 {
                    run_length(s, at) as int
                } else {
                    25
                },
            ),
        ),
    decreases at - from,
{
    if from < at {
        assert(run_length(s, from) < 15);
        lemma_first_run(s, from + 1, at);
    }
}

proof fn lemma_no_run(s: Seq<char>, from: int)
    requires
        forall|i: int| from <= i < s.len() ==> #[trigger] run_length(s, i) < 15,
    ensures
        digit_run_from(s, 15, 25, from) is None,
    decreases s.len() - from,
{
    if 0 <= from < s.len() {
        assert(run_length(s, from) < 15);
        lemma_no_run(s, from + 1);
    }
}

/// How a run of digits goes on does not depend on what stands behind the first
/// character that is none.
proof fn lemma_run_before(a: Seq<char>, b: Seq<char>, i: int)
    requires
        0 <= i < a.len(),
        !is_digit(a[a.len() - 1]),
    ensures
        run_length(a + b, i) == run_length(a, i),
    decreases a.len() - i,
{
    assert((a + b)[i] == a[i]);
    if is_digit(a[i]) {
        lemma_run_before(a, b, i + 1);
    }
}

/// Out of any other ASCII text the first run of at least fifteen digits is
/// taken, and cut after twenty-five.
pub proof fn long_run_is_taken_as_an_id(
    raw: &str,
    r: Option<String>,
    lead: Seq<char>,
    run: Seq<char>,
    tail: Seq<char>,
)
    requires
        call_ensures(normalize_discord_id, (raw,), r),
        raw@ == lead + run + tail,
        is_ascii_chars(raw@),
        !white_space(raw@[0]),
        !white_space(raw@[raw@.len() - 1]),
        all_digits(run),
        run.len() >= 15,
        lead.len() > 0 ==> !is_digit(lead[lead.len() - 1]),
        forall|i: int| 0 <= i < lead.len() ==> #[trigger] run_length(lead, i) < 15,
        tail.len() > 0 ==> !is_digit(tail[0]),
        lead.len() > 0 || tail.len() > 0 || run.len() > 25,
    ensures
        text_of(r) == Some(
            run.take(
                if run.len() <= 25 {
                    run.len() as int
                } else {
                    25
                },
            ),
        ),
{
    let s = raw@;
    let at = lead.len() as int;
    assert(Seq::<char>::empty() + s + Seq::<char>::empty() =~= s);
    lemma_trimmed(Seq::empty(), s, Seq::empty());
    assert(lead + run + tail =~= lead + (run + tail));
    assert forall|i: int| 0 <= i < at implies #[trigger] run_length(s, i) < 15 by {
        lemma_run_before(lead, run + tail, i);
        assert(run_length(lead, i) < 15);
    }
    assert forall|i: int| at <= i < at + run.len() implies is_digit(#[trigger] s[i]) by {
        assert(s[i] == run[i - at]);
        assert(is_digit(run[i - at]));
    }
    if tail.len() > 0 {
        assert(s[at + run.len()] == tail[0]);
    }
    lemma_run_of_digits(s, at, run.len());
    lemma_first_run(s, 0, at);
    if lead.len() > 0 {
        assert(s[at - 1] == lead[at - 1]);
        assert(!all_digits(s));
    } else if tail.len() > 0 {
        assert(!all_digits(s));
    }
    let n = if run.len() <= 25 {
        run.len() as int
    } else {
        25
    };
    assert(s.subrange(at, at + n) =~= run.take(n));
}

/// A text that neither is a number nor has fifteen digits in a row has no id.
pub proof fn text_without_a_long_run_has_no_id(raw: &str, r: Option<String>, k: int)
    requires
        call_ensures(normalize_discord_id, (raw,), r),
        is_ascii_chars(raw@),
        !white_space(raw@[0]),
        !white_space(raw@[raw@.len() - 1]),
        0 <= k < raw@.len(),
        !is_digit(raw@[k]),
        forall|i: int| 0 <= i < raw@.len() ==> #[trigger] run_length(raw@, i) < 15,
    ensures
        r is None,
{
    let s = raw@;
    assert(Seq::<char>::empty() + s + Seq::<char>::empty() =~= s);
    lemma_trimmed(Seq::empty(), s, Seq::empty());
    assert(!all_digits(s));
    lemma_no_run(s, 0);
}

/// A number of less than five digits is no id.
pub proof fn short_number_is_no_id(raw: &str, r: Option<String>)
    requires
        call_ensures(normalize_discord_id, (raw,), r),
        all_digits(raw@),
        raw@.len() < 5,
    ensures
        r is None,
{
    let s = raw@;
    if s.len() > 0 {
        assert(is_digit(s[0]));
        assert(is_digit(s[s.len() - 1]));
        assert(Seq::<char>::empty() + s + Seq::<char>::empty() =~= s);
        lemma_trimmed(Seq::empty(), s, Seq::empty());
        assert forall|i: int| 0 <= i < s.len() implies '\0' <= #[trigger] s[i] <= '\u{7f}' by {
            assert(is_digit(s[i]));
        }
        assert forall|i: int| 0 <= i < s.len() implies #[trigger] run_length(s, i) < 15 by {
            assert forall|j: int| i <= j < s.len() implies is_digit(#[trigger] s[j]) by {}
            lemma_run_of_digits(s, i, (s.len() - i) as nat);
        }
        lemma_no_run(s, 0);
    }
}

// ---------------------------------------------------------------------------
// The id in metadata
// ---------------------------------------------------------------------------

/// The id of the text under a key, where there is one.
pub open spec fn id_under(meta: TextMap<String>, key: Seq<char>) -> Option<Seq<char>> {
    if meta@.dom().contains(key) {
        normalized(meta@[key]@)
    } else {
        None
    }
}

/// Every usual key is tried, each after those before it and all after the
/// account's own: the id is that of the text under the first key that has one.
pub proof fn every_usual_key_is_tried(meta: TextMap<String>, key: &str, r: Option<String>)
    requires
        call_ensures(resolve_from_meta, (&meta, key), r),
    ensures
        id_under(meta, key@) is Some ==> text_of(r) == id_under(meta, key@),
        id_under(meta, key@) is None ==> {
            let a = id_under(meta, "discord_user_id"@);
            let b = id_under(meta, "discord_id"@);
            let c = id_under(meta, "discordId"@);
            let d = id_under(meta, "discord"@);
            &&& a is Some ==> text_of(r) == a
            &&& a is None && b is Some ==> text_of(r) == b
            &&& a is None && b is None && c is Some ==> text_of(r) == c
            &&& a is None && b is None && c is None && d is Some ==> text_of(r) == d
            &&& a is None && b is None && c is None && d is None ==> r is None
        },
{
    lemma_usual_keys(meta, key@);
}

/// The id in the metadata is that under the first key that has one.
pub open spec fn first_id(meta: TextMap<String>, key: Seq<char>) -> Option<Seq<char>> {
    let a = id_under(meta, "discord_user_id"@);
    let b = id_under(meta, "discord_id"@);
    let c = id_under(meta, "discordId"@);
    let d = id_under(meta, "discord"@);
    if id_under(meta, key) is Some {
        id_under(meta, key)
    } else if a is Some {
        a
    } else if b is Some {
        b
    } else if c is Some {
        c
    } else {
        d
    }
}

proof fn lemma_usual_keys(meta: TextMap<String>, key: Seq<char>)
    ensures
        resolved(crate::text_map::texts_map(meta@), key) == first_id(meta, key),
{
    let map = crate::text_map::texts_map(meta@);
    let keys = candidate_keys(key);
    let k1 = keys.drop_first();
    let k2 = k1.drop_first();
    let k3 = k2.drop_first();
    let k4 = k3.drop_first();
    let k5 = k4.drop_first();
    assert(keys.len() == 5);
    assert(keys.first() == key);
    assert(k1.first() == "discord_user_id"@);
    assert(k2.first() == "discord_id"@);
    assert(k3.first() == "discordId"@);
    assert(k4.first() == "discord"@);
    assert(k5.len() == 0);
    assert(resolved_under(map, k5) is None);
    assert forall|k: Seq<char>| map.dom().contains(k) == meta@.dom().contains(k) && (
    meta@.dom().contains(k) ==> map[k] == #[trigger] meta@[k]@) by {}
    assert(resolved_under(map, k4) == id_under(meta, "discord"@));
    assert(resolved_under(map, k3) == if id_under(meta, "discordId"@) is Some {
        id_under(meta, "discordId"@)
    } else {
        resolved_under(map, k4)
    });
    assert(resolved_under(map, k2) == if id_under(meta, "discord_id"@) is Some {
        id_under(meta, "discord_id"@)
    } else {
        resolved_under(map, k3)
    });
    assert(resolved_under(map, k1) == if id_under(meta, "discord_user_id"@) is Some {
        id_under(meta, "discord_user_id"@)
    } else {
        resolved_under(map, k2)
    });
}

// ---------------------------------------------------------------------------
// Customers and subscriptions
// ---------------------------------------------------------------------------

/// A deleted customer is removed; another is linked to the member that its
/// metadata name or, failing that, to that of a subscription.
pub proof fn customer_is_linked_by_its_metadata(
    c: CustomerFields,
    key: &str,
    r: CustomerStep,
)
    requires
        call_ensures(customer_step, (&c, key), r),
    ensures
        r is Remove <==> c.deleted,
        r matches CustomerStep::Store(id) ==> first_id(c.metadata, key@) == Some(id@),
        !c.deleted && first_id(c.metadata, key@) is Some ==> r is Store,
        !c.deleted && first_id(c.metadata, key@) is None ==> r is Inherit,
{
    lemma_usual_keys(c.metadata, key@);
    assert(c@.metadata == crate::text_map::texts_map(c.metadata@));
}

/// A subscription is linked by the first of these that names a member: its own
/// metadata, those of the customer that came with it, the reference of the
/// checkout, and the member of that customer. Where none does the row of its
/// customer is asked, if it has one.
pub proof fn subscription_is_linked_by_its_records(
    s: SubFields,
    key: &str,
    reference: Option<&str>,
    stored: Option<String>,
    r: LinkStep,
)
    requires
        call_ensures(link_subscription, (&s, key, reference, stored), r),
    ensures
        ({
            let own = first_id(s.metadata, key@);
            let customers = match s.customer {
                Some(c) => first_id(c.metadata, key@),
                None => None,
            };
            let checkouts = match reference {
                Some(t) => normalized(t@),
                None => None,
            };
            &&& own matches Some(id) ==> r matches LinkStep::Linked(x) && x@ == id
            &&& own is None ==> (customers matches Some(id) ==> r matches LinkStep::Linked(x) && x@
                == id)
            &&& own is None && customers is None ==> (checkouts matches Some(id) ==> r
                matches LinkStep::Linked(x) && x@ == id)
            &&& own is None && customers is None && checkouts is None ==> (stored matches Some(id)
                ==> r matches LinkStep::Linked(x) && x@ == id@)
            &&& own is None && customers is None && checkouts is None && stored is None ==> (
            match s.customer_id {
                Some(c) => r matches LinkStep::AskCustomer(x) && x@ == c@,
                None => r is Unlinked,
            })
        }),
{
    lemma_usual_keys(s.metadata, key@);
    match s.customer {
        Some(c) => lemma_usual_keys(c.metadata, key@),
        None => {},
    }
    assert(s@.metadata == crate::text_map::texts_map(s.metadata@));
}

/// What was found links the subscription; where nothing was, its link is kept.
pub proof fn found_link_replaces_the_kept_one(
    found: Option<String>,
    row: Option<String>,
    r: Option<String>,
)
    requires
        call_ensures(effective_link, (found, row), r),
    ensures
        found is Some ==> text_of(r) == text_of(found),
        found is None ==> text_of(r) == text_of(row),
{
}

} // verus!
