//! The parameters in the text of a rule's clause.
//!
//! A parameter is a `$` and its number. Those of a clause are numbered one after
//! the other, in the order in which the values are bound.
use vstd::prelude::*;
use crate::models::condition::{ConditionModel, ConditionTarget};
use crate::models::rule::RuleModel;
use crate::numeral::{
    decimal, digits_value, is_digit, lemma_decimal, lemma_run_of_digits, run_length,
};
use crate::services::rule_sql::{
    condition_test, group_binds, group_sql, group_tests, groups_binds, groups_sql, rule_binds,
    rule_sql, target_sql, test_binds, test_sql, ColumnTest,
};
use crate::text::joined;

verus! {

/// A text starts with a parameter.
pub open spec fn starts_with_parameter(s: Seq<char>) -> bool {
    s.len() > 0 && s[0] == '$' && run_length(s, 1) > 0
}

/// What stands behind the parameter that a text starts with.
pub open spec fn behind_parameter(s: Seq<char>) -> Seq<char> {
    s.skip(1int + run_length(s, 1))
}

/// The number of the parameter that a text starts with.
pub open spec fn parameter_number(s: Seq<char>) -> nat {
    digits_value(s.subrange(1, 1int + run_length(s, 1)))
}

/// The numbers of the parameters in a text, from left to right.
pub open spec fn placeholders(s: Seq<char>) -> Seq<nat>
    decreases s.len(),
{
    if s.len() == 0 {
        Seq::empty()
    } else if starts_with_parameter(s) {
        proof {
            lemma_run_is_within(s, 1);
        }
        seq![parameter_number(s)] + placeholders(behind_parameter(s))
    } else {
        placeholders(s.drop_first())
    }
}

/// The text with `k` added to the number of each parameter.
pub open spec fn renumbered(s: Seq<char>, k: nat) -> Seq<char>
    decreases s.len(),
{
    if s.len() == 0 {
        Seq::empty()
    } else if starts_with_parameter(s) {
        proof {
            lemma_run_is_within(s, 1);
        }
        seq!['$'] + decimal(parameter_number(s) + k) + renumbered(behind_parameter(s), k)
    } else {
        seq![s[0]] + renumbered(s.drop_first(), k)
    }
}

/// The numbers from `first` on, `n` of them.
pub open spec fn numbers(first: nat, n: nat) -> Seq<nat> {
    Seq::new(n, |j: int| (first + j) as nat)
}

/// A run of digits ends with the text at the latest.
pub proof fn lemma_run_is_within(s: Seq<char>, from: int)
    requires
        0 <= from <= s.len(),
    ensures
        from + run_length(s, from) <= s.len(),
    decreases s.len() - from,
{
    if from < s.len() && is_digit(s[from]) {
        lemma_run_is_within(s, from + 1);
    }
}

// ---------------------------------------------------------------------------
// Texts put together
// ---------------------------------------------------------------------------

/// No parameter is made or changed where the two texts meet.
spec fn meet_well(a: Seq<char>, b: Seq<char>) -> bool {
    ||| b.len() == 0
    ||| !is_digit(b[0])
    ||| a.len() == 0
    ||| a.last() != '$' && !is_digit(a.last())
}

proof fn lemma_run_goes_on(a: Seq<char>, b: Seq<char>, from: int)
    requires
        0 <= from <= a.len(),
        b.len() == 0 || !is_digit(b[0]) || (from < a.len() && !is_digit(a.last())),
    ensures
        run_length(a + b, from) == run_length(a, from),
    decreases a.len() - from,
{
    let s = a + b;
    if from < a.len() {
        assert(s[from] == a[from]);
        if is_digit(a[from]) {
            lemma_run_goes_on(a, b, from + 1);
        }
    } else if b.len() > 0 {
        assert(s[from] == b[0]);
    }
}

proof fn lemma_concat(a: Seq<char>, b: Seq<char>, k: nat)
    requires
        meet_well(a, b),
    ensures
        placeholders(a + b) == placeholders(a) + placeholders(b),
        renumbered(a + b, k) == renumbered(a, k) + renumbered(b, k),
    decreases a.len(),
{
    let s = a + b;
    if a.len() == 0 {
        assert(s =~= b);
        assert(placeholders(a) + placeholders(b) =~= placeholders(b));
        assert(renumbered(a, k) + renumbered(b, k) =~= renumbered(b, k));
    } else {
        assert(s[0] == a[0]);
        if a[0] == '$' {
            lemma_run_goes_on(a, b, 1);
            lemma_run_is_within(a, 1);
        }
        if starts_with_parameter(a) {
            let n = run_length(a, 1);
            let rest = behind_parameter(a);
            assert(behind_parameter(s) =~= rest + b);
            assert(s.subrange(1, 1int + n) =~= a.subrange(1, 1int + n));
            if rest.len() > 0 {
                assert(rest.last() == a.last());
            }
            lemma_concat(rest, b, k);
        } else {
            let rest = a.drop_first();
            assert(s.drop_first() =~= rest + b);
            if rest.len() > 0 {
                assert(rest.last() == a.last());
            }
            lemma_concat(rest, b, k);
        }
        assert(placeholders(s) =~= placeholders(a) + placeholders(b));
        assert(renumbered(s, k) =~= renumbered(a, k) + renumbered(b, k));
    }
}

/// A text without a parameter's mark.
spec fn plain(s: Seq<char>) -> bool {
    forall|i: int| 0 <= i < s.len() ==> #[trigger] s[i] != '$'
}

proof fn lemma_plain(s: Seq<char>, k: nat)
    requires
        plain(s),
    ensures
        placeholders(s) == Seq::<nat>::empty(),
        renumbered(s, k) == s,
    decreases s.len(),
{
    if s.len() > 0 {
        let rest = s.drop_first();
        assert forall|i: int| 0 <= i < rest.len() implies #[trigger] rest[i] != '$' by {
            assert(rest[i] == s[i + 1]);
        }
        lemma_plain(rest, k);
        assert(s[0] != '$');
        assert(seq![s[0]] + rest =~= s);
    }
}

proof fn lemma_parameter(i: nat, k: nat)
    ensures
        placeholders(seq!['$'] + decimal(i)) == seq![i],
        renumbered(seq!['$'] + decimal(i), k) == seq!['$'] + decimal(i + k),
{
    let s = seq!['$'] + decimal(i);
    lemma_decimal(i);
    assert forall|j: int| 1 <= j < 1 + decimal(i).len() implies is_digit(#[trigger] s[j]) by {
        assert(s[j] == decimal(i)[j - 1]);
        assert(is_digit(decimal(i)[j - 1]));
    }
    lemma_run_of_digits(s, 1, decimal(i).len());
    assert(s.subrange(1, 1int + run_length(s, 1)) =~= decimal(i));
    assert(behind_parameter(s) =~= Seq::empty());
    reveal_with_fuel(placeholders, 2);
    reveal_with_fuel(renumbered, 2);
    assert(placeholders(s) =~= seq![i]);
    assert(renumbered(s, k) =~= seq!['$'] + decimal(i + k));
}

/// A text whose last character alone is a parameter's mark.
spec fn mark_at_end(h: Seq<char>) -> bool {
    &&& h.len() > 0
    &&& h.last() == '$'
    &&& forall|i: int| 0 <= i < h.len() - 1 ==> #[trigger] h[i] != '$'
}

/// Two forms of a text: the first has `n` parameters, numbered from `first` on,
/// and the second is the first with `k` added to each of them.
spec fn numbered_alike(s: Seq<char>, t: Seq<char>, first: nat, n: nat, k: nat) -> bool {
    placeholders(s) == numbers(first, n) && renumbered(s, k) == t
}

proof fn lemma_marked(h: Seq<char>, tail: Seq<char>, tail_later: Seq<char>, i: nat, n: nat, k: nat)
    requires
        mark_at_end(h),
        tail.len() == 0 || !is_digit(tail[0]),
        numbered_alike(tail, tail_later, i + 1, n, k),
    ensures
        numbered_alike(
            h + decimal(i) + tail,
            h + decimal(i + k) + tail_later,
            i,
            n + 1,
            k,
        ),
{
    let p = h.drop_last();
    let param = seq!['$'] + decimal(i);
    lemma_plain(p, k);
    lemma_parameter(i, k);
    lemma_concat(param, tail, k);
    assert((param + tail)[0] == '$');
    lemma_concat(p, param + tail, k);
    assert(h + decimal(i) + tail =~= p + (param + tail));
    assert(h + decimal(i + k) + tail_later =~= p + (seq!['$'] + decimal(i + k) + tail_later));
    assert(placeholders(h + decimal(i) + tail) =~= numbers(i, n + 1));
}

proof fn lemma_plain_alike(s: Seq<char>, first: nat, k: nat)
    requires
        plain(s),
    ensures
        numbered_alike(s, s, first, 0, k),
{
    lemma_plain(s, k);
    assert(numbers(first, 0) =~= Seq::<nat>::empty());
}

/// One parameter between a head and a plain tail.
proof fn lemma_one(h: Seq<char>, tail: Seq<char>, i: nat, k: nat)
    requires
        mark_at_end(h),
        plain(tail),
        tail.len() == 0 || !is_digit(tail[0]),
    ensures
        numbered_alike(h + decimal(i) + tail, h + decimal(i + k) + tail, i, 1, k),
{
    lemma_plain_alike(tail, i + 1, k);
    lemma_marked(h, tail, tail, i, 0, k);
}

/// One parameter behind a head.
proof fn lemma_last(h: Seq<char>, i: nat, k: nat)
    requires
        mark_at_end(h),
    ensures
        numbered_alike(h + decimal(i), h + decimal(i + k), i, 1, k),
{
    lemma_one(h, Seq::empty(), i, k);
    assert(h + decimal(i) + Seq::empty() =~= h + decimal(i));
    assert(h + decimal(i + k) + Seq::empty() =~= h + decimal(i + k));
}

/// Two texts with a plain text between them.
proof fn lemma_between(
    a: Seq<char>,
    a_later: Seq<char>,
    sep: Seq<char>,
    b: Seq<char>,
    b_later: Seq<char>,
    first: nat,
    n: nat,
    m: nat,
    k: nat,
)
    requires
        numbered_alike(a, a_later, first, n, k),
        numbered_alike(b, b_later, first + n, m, k),
        plain(sep),
        sep.len() > 0,
        !is_digit(sep[0]),
        !is_digit(sep.last()),
    ensures
        numbered_alike(a + sep + b, a_later + sep + b_later, first, n + m, k),
{
    lemma_plain(sep, k);
    lemma_concat(a, sep, k);
    assert((a + sep).last() == sep.last());
    assert(sep[sep.len() - 1] != '$');
    lemma_concat(a + sep, b, k);
    assert(placeholders(a + sep + b) =~= numbers(first, n + m));
}

/// A text in brackets.
proof fn lemma_in_brackets(s: Seq<char>, t: Seq<char>, first: nat, n: nat, k: nat)
    requires
        numbered_alike(s, t, first, n, k),
    ensures
        numbered_alike("("@ + s + ")"@, "("@ + t + ")"@, first, n, k),
{
    reveal_strlit("(");
    reveal_strlit(")");
    assert("("@.len() == 1 && ")"@.len() == 1);
    lemma_plain("("@, k);
    lemma_plain(")"@, k);
    lemma_concat("("@, s, k);
    lemma_concat("("@ + s, ")"@, k);
    assert(placeholders("("@ + s + ")"@) =~= numbers(first, n));
}

// ---------------------------------------------------------------------------
// The clause
// ---------------------------------------------------------------------------

/// The expression of a target has no parameter.
proof fn lemma_target_is_plain(t: ConditionTarget)
    ensures
        plain(target_sql(t)),
{
    match t {
        ConditionTarget::HasActiveSubscription => {
            reveal_strlit("mf.has_active_subscription");
        },
        ConditionTarget::SubscriptionStatus => {
            reveal_strlit("mf.subscription_status");
        },
        ConditionTarget::IsTrialing => {
            reveal_strlit("mf.is_trialing");
        },
        ConditionTarget::IsPastDue => {
            reveal_strlit("mf.is_past_due");
        },
        ConditionTarget::CancelsAtPeriodEnd => {
            reveal_strlit("mf.cancels_at_period_end");
        },
        ConditionTarget::ActiveSubscriptionCount => {
            reveal_strlit("mf.active_subscription_count");
        },
        ConditionTarget::SubscribedToProduct => {
            reveal_strlit("mf.product_ids");
        },
        ConditionTarget::SubscribedToPrice => {
            reveal_strlit("mf.price_ids");
        },
        ConditionTarget::PlanAmount => {
            reveal_strlit("mf.plan_amount_cents");
        },
        ConditionTarget::BillingInterval => {
            reveal_strlit("mf.billing_interval");
        },
        ConditionTarget::SubscriptionAgeDays => {
            reveal_strlit(
                "TRUNC(EXTRACT(EPOCH FROM (now() - mf.subscription_started_at)) / 86400)",
            );
        },
        ConditionTarget::DaysUntilRenewal => {
            reveal_strlit("TRUNC(EXTRACT(EPOCH FROM (mf.current_period_end - now())) / 86400)");
        },
        ConditionTarget::TotalMrr => {
            reveal_strlit("mf.total_mrr_cents");
        },
        ConditionTarget::IsCustomer => {
            reveal_strlit("mf.is_customer");
        },
        ConditionTarget::CustomerAgeDays => {
            reveal_strlit("TRUNC(EXTRACT(EPOCH FROM (now() - mf.customer_created_at)) / 86400)");
        },
        ConditionTarget::IsDelinquent => {
            reveal_strlit("mf.is_delinquent");
        },
        ConditionTarget::LifetimeSpend => {
            reveal_strlit("mf.lifetime_spend_cents");
        },
        ConditionTarget::SuccessfulPayments => {
            reveal_strlit("mf.successful_payments");
        },
        ConditionTarget::CountryCode => {
            reveal_strlit("mf.country_code");
        },
        ConditionTarget::Currency => {
            reveal_strlit("mf.currency");
        },
        ConditionTarget::EmailDomain => {
            reveal_strlit("mf.email_domain");
        },
    }
}

/// One parameter behind a plain text and a head.
proof fn lemma_behind(p: Seq<char>, h: Seq<char>, i: nat, k: nat)
    requires
        plain(p),
        mark_at_end(h),
    ensures
        numbered_alike(p + h + decimal(i), p + h + decimal(i + k), i, 1, k),
{
    assert(mark_at_end(p + h));
    lemma_last(p + h, i, k);
}

/// One parameter between a plain text, a head and a plain tail.
proof fn lemma_amid(p: Seq<char>, h: Seq<char>, tail: Seq<char>, i: nat, k: nat)
    requires
        plain(p),
        mark_at_end(h),
        plain(tail),
        tail.len() > 0,
        !is_digit(tail[0]),
    ensures
        numbered_alike(p + h + decimal(i) + tail, p + h + decimal(i + k) + tail, i, 1, k),
{
    assert(mark_at_end(p + h));
    lemma_one(p + h, tail, i, k);
}

proof fn lemma_opened_is_plain(e: Seq<char>)
    requires
        plain(e),
    ensures
        plain("("@ + e),
        plain("(("@ + e),
        plain("(NOT ("@ + e),
{
    reveal_strlit("(");
    reveal_strlit("((");
    reveal_strlit("(NOT (");
}

/// The tests without a parameter.
proof fn lemma_fixed_test(e: Seq<char>, t: ColumnTest, i: nat, k: nat)
    requires
        plain(e),
        t is Never || t is Always || t is Known,
    ensures
        numbered_alike(test_sql(e, t, i), test_sql(e, t, i + k), i, test_binds(t).len(), k),
{
    reveal_strlit("FALSE");
    reveal_strlit("TRUE");
    reveal_strlit(" IS NOT NULL");
    lemma_plain_alike(test_sql(e, t, i), i, k);
}

/// The tests that end in their parameter.
proof fn lemma_comparison(e: Seq<char>, t: ColumnTest, i: nat, k: nat)
    requires
        plain(e),
        t is Equals || t is Differs || t is DistinctFrom || t is Like || t is Matches,
    ensures
        numbered_alike(test_sql(e, t, i), test_sql(e, t, i + k), i, test_binds(t).len(), k),
{
    match t {
        ColumnTest::Equals(_) => {
            reveal_strlit(" = $");
            lemma_behind(e, " = $"@, i, k);
        },
        ColumnTest::Differs(_) => {
            reveal_strlit(" <> $");
            lemma_behind(e, " <> $"@, i, k);
        },
        ColumnTest::DistinctFrom(_) => {
            reveal_strlit(" IS DISTINCT FROM $");
            lemma_behind(e, " IS DISTINCT FROM $"@, i, k);
        },
        ColumnTest::Like(_) => {
            reveal_strlit(" LIKE $");
            lemma_behind(e, " LIKE $"@, i, k);
        },
        _ => {
            reveal_strlit(" ~ $");
            lemma_behind(e, " ~ $"@, i, k);
        },
    }
}

/// The tests of an order.
proof fn lemma_order_test(e: Seq<char>, t: ColumnTest, i: nat, k: nat)
    requires
        plain(e),
        t is Above || t is AtLeast || t is Below || t is AtMost,
    ensures
        numbered_alike(test_sql(e, t, i), test_sql(e, t, i + k), i, test_binds(t).len(), k),
{
    lemma_opened_is_plain(e);
    match t {
        ColumnTest::Above(_) => {
            reveal_strlit(") > $");
            lemma_behind("("@ + e, ") > $"@, i, k);
        },
        ColumnTest::AtLeast(_) => {
            reveal_strlit(") >= $");
            lemma_behind("("@ + e, ") >= $"@, i, k);
        },
        ColumnTest::Below(_) => {
            reveal_strlit(") < $");
            lemma_behind("("@ + e, ") < $"@, i, k);
        },
        _ => {
            reveal_strlit(") <= $");
            lemma_behind("("@ + e, ") <= $"@, i, k);
        },
    }
}

/// The test of an interval, which has two parameters.
proof fn lemma_interval_test(e: Seq<char>, lo: i64, hi: i64, i: nat, k: nat)
    requires
        plain(e),
    ensures
        numbered_alike(
            test_sql(e, ColumnTest::Within(lo, hi), i),
            test_sql(e, ColumnTest::Within(lo, hi), i + k),
            i,
            2,
            k,
        ),
{
    let t = ColumnTest::Within(lo, hi);
    lemma_opened_is_plain(e);
    reveal_strlit(") >= $");
    reveal_strlit(" AND (");
    reveal_strlit(") <= $");
    reveal_strlit(")");
    let h = "(("@ + e + ") >= $"@;
    let p = " AND ("@ + e;
    let tail = p + ") <= $"@ + decimal(i + 1) + ")"@;
    let tail_later = p + ") <= $"@ + decimal(i + 1 + k) + ")"@;
    lemma_amid(p, ") <= $"@, ")"@, i + 1, k);
    assert(tail[0] == ' ');
    lemma_marked(h, tail, tail_later, i, 1, k);
    assert(test_sql(e, t, i) =~= h + decimal(i) + tail);
    assert(test_sql(e, t, i + k) =~= h + decimal(i + k) + tail_later);
}

/// The tests against a list.
proof fn lemma_list_test(e: Seq<char>, t: ColumnTest, i: nat, k: nat)
    requires
        plain(e),
        t is AnyOf || t is NoneOf || t is Has || t is Overlaps || t is Disjoint,
    ensures
        numbered_alike(test_sql(e, t, i), test_sql(e, t, i + k), i, test_binds(t).len(), k),
{
    lemma_opened_is_plain(e);
    match t {
        ColumnTest::AnyOf(_) => {
            reveal_strlit(" = ANY($");
            reveal_strlit("::text[])");
            lemma_amid(e, " = ANY($"@, "::text[])"@, i, k);
        },
        ColumnTest::NoneOf(_) => {
            reveal_strlit(" IS NOT NULL AND ");
            reveal_strlit(" <> ALL($");
            reveal_strlit("::text[]))");
            lemma_amid(
                "("@ + e + " IS NOT NULL AND "@ + e,
                " <> ALL($"@,
                "::text[]))"@,
                i,
                k,
            );
        },
        ColumnTest::Has(_) => {
            reveal_strlit("$");
            reveal_strlit(" = ANY(");
            reveal_strlit(")");
            let tail = " = ANY("@ + e + ")"@;
            assert(tail[0] == ' ');
            lemma_one("$"@, tail, i, k);
            assert(test_sql(e, t, i) =~= "$"@ + decimal(i) + tail);
            assert(test_sql(e, t, i + k) =~= "$"@ + decimal(i + k) + tail);
        },
        ColumnTest::Overlaps(_) => {
            reveal_strlit(" && $");
            reveal_strlit("::text[])");
            lemma_amid("("@ + e, " && $"@, "::text[])"@, i, k);
        },
        _ => {
            reveal_strlit(" && $");
            reveal_strlit("::text[]))");
            lemma_amid("(NOT ("@ + e, " && $"@, "::text[]))"@, i, k);
        },
    }
}

/// The parameters of a test are numbered one after the other.
proof fn lemma_test(e: Seq<char>, t: ColumnTest, i: nat, k: nat)
    requires
        plain(e),
    ensures
        numbered_alike(test_sql(e, t, i), test_sql(e, t, i + k), i, test_binds(t).len(), k),
{
    match t {
        ColumnTest::Never | ColumnTest::Always | ColumnTest::Known => {
            lemma_fixed_test(e, t, i, k);
        },
        ColumnTest::Above(_)
        | ColumnTest::AtLeast(_)
        | ColumnTest::Below(_)
        | ColumnTest::AtMost(_) => {
            lemma_order_test(e, t, i, k);
        },
        ColumnTest::Within(lo, hi) => {
            lemma_interval_test(e, lo, hi, i, k);
        },
        ColumnTest::AnyOf(_)
        | ColumnTest::NoneOf(_)
        | ColumnTest::Has(_)
        | ColumnTest::Overlaps(_)
        | ColumnTest::Disjoint(_) => {
            lemma_list_test(e, t, i, k);
        },
        _ => {
            lemma_comparison(e, t, i, k);
        },
    }
}

proof fn lemma_tests(g: Seq<ConditionModel>, first: nat, k: nat)
    ensures
        group_tests(g, first).len() == g.len(),
        numbered_alike(
            joined(group_tests(g, first), " AND "@),
            joined(group_tests(g, first + k), " AND "@),
            first,
            group_binds(g).len(),
            k,
        ),
    decreases g.len(),
{
    if g.len() == 0 {
        lemma_plain_alike(Seq::empty(), first, k);
    } else {
        let before = g.drop_last();
        let n = group_binds(before).len();
        let e = target_sql(g.last().target);
        let t = condition_test(g.last());
        lemma_tests(before, first, k);
        lemma_tests(before, first + k, 0);
        lemma_target_is_plain(g.last().target);
        lemma_test(e, t, first + n, k);
        assert(first + n + k == first + k + n);
        let parts = group_tests(g, first);
        let later = group_tests(g, first + k);
        assert(parts.drop_last() =~= group_tests(before, first));
        assert(later.drop_last() =~= group_tests(before, first + k));
        assert(group_binds(g).len() == n + test_binds(t).len());
        if g.len() == 1 {
            assert(n == 0);
        } else {
            reveal_strlit(" AND ");
            lemma_between(
                joined(group_tests(before, first), " AND "@),
                joined(group_tests(before, first + k), " AND "@),
                " AND "@,
                parts.last(),
                later.last(),
                first,
                n,
                test_binds(t).len(),
                k,
            );
        }
    }
}

proof fn lemma_group(g: Seq<ConditionModel>, first: nat, k: nat)
    ensures
        numbered_alike(group_sql(g, first), group_sql(g, first + k), first, group_binds(g).len(), k),
{
    if g.len() == 0 {
        reveal_strlit("FALSE");
        lemma_plain_alike("FALSE"@, first, k);
    } else {
        lemma_tests(g, first, k);
        lemma_in_brackets(
            joined(group_tests(g, first), " AND "@),
            joined(group_tests(g, first + k), " AND "@),
            first,
            group_binds(g).len(),
            k,
        );
    }
}

proof fn lemma_groups(gs: Seq<Seq<ConditionModel>>, first: nat, k: nat)
    ensures
        groups_sql(gs, first).len() == gs.len(),
        numbered_alike(
            joined(groups_sql(gs, first), " OR "@),
            joined(groups_sql(gs, first + k), " OR "@),
            first,
            groups_binds(gs).len(),
            k,
        ),
    decreases gs.len(),
{
    if gs.len() == 0 {
        lemma_plain_alike(Seq::empty(), first, k);
    } else {
        let before = gs.drop_last();
        let n = groups_binds(before).len();
        lemma_groups(before, first, k);
        lemma_groups(before, first + k, 0);
        lemma_group(gs.last(), first + n, k);
        assert(first + n + k == first + k + n);
        let parts = groups_sql(gs, first);
        let later = groups_sql(gs, first + k);
        assert(parts.drop_last() =~= groups_sql(before, first));
        assert(later.drop_last() =~= groups_sql(before, first + k));
        if gs.len() == 1 {
            assert(n == 0);
        } else {
            reveal_strlit(" OR ");
            lemma_between(
                joined(groups_sql(before, first), " OR "@),
                joined(groups_sql(before, first + k), " OR "@),
                " OR "@,
                parts.last(),
                later.last(),
                first,
                n,
                group_binds(gs.last()).len(),
                k,
            );
        }
    }
}

/// The parameters of a clause, from left to right, are numbered from the one
/// after the offset on, one for each value that the rule binds. With another
/// offset the clause is the same but for the numbers, which are shifted.
pub proof fn parameters_are_numbered_in_order(r: RuleModel, offset: nat)
    ensures
        placeholders(rule_sql(r, offset)) == numbers(offset + 1, rule_binds(r).len()),
        rule_sql(r, offset) == renumbered(rule_sql(r, 0), offset),
{
    if r.grant_on_any_relation {
        reveal_strlit("TRUE");
        lemma_plain_alike("TRUE"@, offset + 1, offset);
    } else if r.groups.len() == 0 {
        reveal_strlit("FALSE");
        lemma_plain_alike("FALSE"@, offset + 1, offset);
    } else {
        lemma_groups(r.groups, offset + 1, 0);
        lemma_in_brackets(
            joined(groups_sql(r.groups, offset + 1), " OR "@),
            joined(groups_sql(r.groups, offset + 1), " OR "@),
            offset + 1,
            groups_binds(r.groups).len(),
            0,
        );
        lemma_groups(r.groups, 1, offset);
        lemma_in_brackets(
            joined(groups_sql(r.groups, 1), " OR "@),
            joined(groups_sql(r.groups, offset + 1), " OR "@),
            1,
            groups_binds(r.groups).len(),
            offset,
        );
    }
}

} // verus!
