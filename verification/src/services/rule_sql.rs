//! A rule as the WHERE clause of a query over `stripe_member_facts`.
//!
//! The clause reads one alias that the query must provide: `mf`, one row of
//! facts for each account and member. It selects the members that
//! `crate::services::condition_eval` admits, so that a whole account is
//! filtered in the database. A column without a value passes no test but that
//! it is distinct from a text.
use vstd::prelude::*;
use vstd::string::StringExecFns;
use crate::clock::{days_between, Timestamp};
use crate::json::{json_bool, json_i64, json_str, json_strings, Json};
use crate::models::condition::{
    operator_valid_for, target_kind, Condition, ConditionModel, ConditionOperator,
    ConditionTarget, TargetKind,
};
use crate::models::facts::FactsModel;
use crate::models::rule::{ConditionGroup, RuleModel, RuleTree};
use crate::numeral::{decimal, decimal_u64};
use crate::services::condition_eval::{condition_holds, group_holds, overlap, rule_holds};
use crate::text::{chars_of, has_substring, join, joined, occurs_at, texts};

verus! {

/// A value bound to a parameter of the clause.
#[derive(Debug)]
pub enum Bind {
    Bool(bool),
    Int(i64),
    Text(String),
    TextArray(Vec<String>),
}

pub enum BindModel {
    Bool(bool),
    Int(i64),
    Text(Seq<char>),
    TextArray(Seq<Seq<char>>),
}

impl View for Bind {
    type V = BindModel;

    open spec fn view(&self) -> BindModel {
        match self {
            Bind::Bool(b) => BindModel::Bool(*b),
            Bind::Int(n) => BindModel::Int(*n),
            Bind::Text(s) => BindModel::Text(s@),
            Bind::TextArray(v) => BindModel::TextArray(texts(v@)),
        }
    }
}

pub open spec fn binds_model(binds: Seq<Bind>) -> Seq<BindModel> {
    binds.map_values(|b: Bind| b@)
}

// ---------------------------------------------------------------------------
// What the clause says
// ---------------------------------------------------------------------------

/// The test that a condition puts to one column.
pub enum ColumnTest {
    /// `FALSE`.
    Never,
    /// `TRUE`.
    Always,
    /// `=` one value.
    Equals(BindModel),
    /// `<>` a number.
    Differs(i64),
    /// `IS DISTINCT FROM` a text.
    DistinctFrom(Seq<char>),
    /// `>`, `>=`, `<` or `<=` a number.
    Above(i64),
    AtLeast(i64),
    Below(i64),
    AtMost(i64),
    /// Between two numbers, both included.
    Within(i64, i64),
    /// `LIKE` a pattern.
    Like(Seq<char>),
    /// `~` a regular expression.
    Matches(Seq<char>),
    /// `IS NOT NULL`.
    Known,
    /// `= ANY` of a list.
    AnyOf(Seq<Seq<char>>),
    /// Known, and `<> ALL` of a list.
    NoneOf(Seq<Seq<char>>),
    /// The column's list has the text.
    Has(Seq<char>),
    /// The column's list overlaps the other.
    Overlaps(Seq<Seq<char>>),
    /// The column's list does not overlap the other.
    Disjoint(Seq<Seq<char>>),
}

/// The SQL expression of a target.
pub open spec fn target_sql(target: ConditionTarget) -> Seq<char> {
    match target {
        ConditionTarget::HasActiveSubscription => "mf.has_active_subscription"@,
        ConditionTarget::SubscriptionStatus => "mf.subscription_status"@,
        ConditionTarget::IsTrialing => "mf.is_trialing"@,
        ConditionTarget::IsPastDue => "mf.is_past_due"@,
        ConditionTarget::CancelsAtPeriodEnd => "mf.cancels_at_period_end"@,
        ConditionTarget::ActiveSubscriptionCount => "mf.active_subscription_count"@,
        ConditionTarget::SubscribedToProduct => "mf.product_ids"@,
        ConditionTarget::SubscribedToPrice => "mf.price_ids"@,
        ConditionTarget::PlanAmount => "mf.plan_amount_cents"@,
        ConditionTarget::BillingInterval => "mf.billing_interval"@,
        ConditionTarget::SubscriptionAgeDays =>
            "TRUNC(EXTRACT(EPOCH FROM (now() - mf.subscription_started_at)) / 86400)"@,
        ConditionTarget::DaysUntilRenewal =>
            "TRUNC(EXTRACT(EPOCH FROM (mf.current_period_end - now())) / 86400)"@,
        ConditionTarget::TotalMrr => "mf.total_mrr_cents"@,
        ConditionTarget::IsCustomer => "mf.is_customer"@,
        ConditionTarget::CustomerAgeDays =>
            "TRUNC(EXTRACT(EPOCH FROM (now() - mf.customer_created_at)) / 86400)"@,
        ConditionTarget::IsDelinquent => "mf.is_delinquent"@,
        ConditionTarget::LifetimeSpend => "mf.lifetime_spend_cents"@,
        ConditionTarget::SuccessfulPayments => "mf.successful_payments"@,
        ConditionTarget::CountryCode => "mf.country_code"@,
        ConditionTarget::Currency => "mf.currency"@,
        ConditionTarget::EmailDomain => "mf.email_domain"@,
    }
}

pub open spec fn text_or_empty(j: Json) -> Seq<char> {
    match json_str(j) {
        Some(s) => s,
        None => Seq::empty(),
    }
}

pub open spec fn int_or(j: Option<Json>, default: i64) -> i64 {
    match j {
        Some(v) => match json_i64(v) {
            Some(n) => n,
            None => default,
        },
        None => default,
    }
}

/// The text with a backslash before each character that `LIKE` gives a meaning.
pub open spec fn escaped(s: Seq<char>) -> Seq<char>
    decreases s.len(),
{
    if s.len() == 0 {
        Seq::empty()
    } else if special(s.first()) {
        seq!['\\', s.first()] + escaped(s.drop_first())
    } else {
        seq![s.first()] + escaped(s.drop_first())
    }
}

pub open spec fn special(c: char) -> bool {
    c == '\\' || c == '%' || c == '_'
}

/// The pattern of the texts that have the given one as a part.
pub open spec fn containing(s: Seq<char>) -> Seq<char> {
    seq!['%'] + escaped(s) + seq!['%']
}

/// The test of a condition on a list of strings.
pub open spec fn list_test(c: ConditionModel) -> ColumnTest {
    let wanted = json_strings(c.value);
    match c.operator {
        ConditionOperator::Eq => ColumnTest::Has(text_or_empty(c.value)),
        ConditionOperator::In => if wanted.len() == 0 {
            ColumnTest::Never
        } else {
            ColumnTest::Overlaps(wanted)
        },
        ConditionOperator::NotIn => if wanted.len() == 0 {
            ColumnTest::Always
        } else {
            ColumnTest::Disjoint(wanted)
        },
        _ => ColumnTest::Never,
    }
}

/// The test of a condition on a single value.
pub open spec fn scalar_test(c: ConditionModel) -> ColumnTest {
    let wanted = json_strings(c.value);
    let n = int_or(Some(c.value), 0);
    match c.operator {
        ConditionOperator::Eq => match (json_bool(c.value), json_i64(c.value)) {
            (Some(b), _) => ColumnTest::Equals(BindModel::Bool(b)),
            (None, Some(i)) => ColumnTest::Equals(BindModel::Int(i)),
            (None, None) => ColumnTest::Equals(BindModel::Text(text_or_empty(c.value))),
        },
        ConditionOperator::Neq => match json_i64(c.value) {
            Some(i) => ColumnTest::Differs(i),
            None => ColumnTest::DistinctFrom(text_or_empty(c.value)),
        },
        ConditionOperator::Gt => ColumnTest::Above(n),
        ConditionOperator::Gte => ColumnTest::AtLeast(n),
        ConditionOperator::Lt => ColumnTest::Below(n),
        ConditionOperator::Lte => ColumnTest::AtMost(n),
        ConditionOperator::Between => ColumnTest::Within(n, int_or(c.value_end, n)),
        ConditionOperator::Contains => ColumnTest::Like(containing(text_or_empty(c.value))),
        ConditionOperator::Regex => ColumnTest::Matches(text_or_empty(c.value)),
        ConditionOperator::In => if wanted.len() == 0 {
            ColumnTest::Never
        } else {
            ColumnTest::AnyOf(wanted)
        },
        ConditionOperator::NotIn => if wanted.len() == 0 {
            ColumnTest::Known
        } else {
            ColumnTest::NoneOf(wanted)
        },
    }
}

/// The test of a condition.
pub open spec fn condition_test(c: ConditionModel) -> ColumnTest {
    if target_kind(c.target) is StringList {
        list_test(c)
    } else {
        scalar_test(c)
    }
}

/// The values that a test binds, in order.
pub open spec fn test_binds(t: ColumnTest) -> Seq<BindModel> {
    match t {
        ColumnTest::Never | ColumnTest::Always | ColumnTest::Known => Seq::empty(),
        ColumnTest::Equals(b) => seq![b],
        ColumnTest::Differs(n)
        | ColumnTest::Above(n)
        | ColumnTest::AtLeast(n)
        | ColumnTest::Below(n)
        | ColumnTest::AtMost(n) => seq![BindModel::Int(n)],
        ColumnTest::Within(lo, hi) => seq![BindModel::Int(lo), BindModel::Int(hi)],
        ColumnTest::DistinctFrom(s)
        | ColumnTest::Like(s)
        | ColumnTest::Matches(s)
        | ColumnTest::Has(s) => seq![BindModel::Text(s)],
        ColumnTest::AnyOf(v)
        | ColumnTest::NoneOf(v)
        | ColumnTest::Overlaps(v)
        | ColumnTest::Disjoint(v) => seq![BindModel::TextArray(v)],
    }
}

/// The SQL of a test on an expression, whose first parameter has the number
/// `i`.
pub open spec fn test_sql(e: Seq<char>, t: ColumnTest, i: nat) -> Seq<char> {
    match t {
        ColumnTest::Never => "FALSE"@,
        ColumnTest::Always => "TRUE"@,
        ColumnTest::Equals(_) => e + " = $"@ + decimal(i),
        ColumnTest::Differs(_) => e + " <> $"@ + decimal(i),
        ColumnTest::DistinctFrom(_) => e + " IS DISTINCT FROM $"@ + decimal(i),
        ColumnTest::Above(_) => "("@ + e + ") > $"@ + decimal(i),
        ColumnTest::AtLeast(_) => "("@ + e + ") >= $"@ + decimal(i),
        ColumnTest::Below(_) => "("@ + e + ") < $"@ + decimal(i),
        ColumnTest::AtMost(_) => "("@ + e + ") <= $"@ + decimal(i),
        ColumnTest::Within(_, _) => "(("@ + e + ") >= $"@ + decimal(i) + " AND ("@ + e + ") <= $"@
            + decimal(i + 1) + ")"@,
        ColumnTest::Like(_) => e + " LIKE $"@ + decimal(i),
        ColumnTest::Matches(_) => e + " ~ $"@ + decimal(i),
        ColumnTest::Known => e + " IS NOT NULL"@,
        ColumnTest::AnyOf(_) => e + " = ANY($"@ + decimal(i) + "::text[])"@,
        ColumnTest::NoneOf(_) => "("@ + e + " IS NOT NULL AND "@ + e + " <> ALL($"@ + decimal(i)
            + "::text[]))"@,
        ColumnTest::Has(_) => "$"@ + decimal(i) + " = ANY("@ + e + ")"@,
        ColumnTest::Overlaps(_) => "("@ + e + " && $"@ + decimal(i) + "::text[])"@,
        ColumnTest::Disjoint(_) => "(NOT ("@ + e + " && $"@ + decimal(i) + "::text[]))"@,
    }
}

/// The values that the conditions of a group bind, in order.
pub open spec fn group_binds(g: Seq<ConditionModel>) -> Seq<BindModel>
    decreases g.len(),
{
    if g.len() == 0 {
        Seq::empty()
    } else {
        group_binds(g.drop_last()) + test_binds(condition_test(g.last()))
    }
}

/// The SQL of each condition of a group; the parameters are numbered from
/// `first`.
pub open spec fn group_tests(g: Seq<ConditionModel>, first: nat) -> Seq<Seq<char>>
    decreases g.len(),
{
    if g.len() == 0 {
        Seq::empty()
    } else {
        group_tests(g.drop_last(), first).push(
            test_sql(
                target_sql(g.last().target),
                condition_test(g.last()),
                first + group_binds(g.drop_last()).len(),
            ),
        )
    }
}

/// The SQL of a group: all its conditions, or nothing where it has none.
pub open spec fn group_sql(g: Seq<ConditionModel>, first: nat) -> Seq<char> {
    if g.len() == 0 {
        "FALSE"@
    } else {
        "("@ + joined(group_tests(g, first), " AND "@) + ")"@
    }
}

/// The values that the groups bind, in order.
pub open spec fn groups_binds(gs: Seq<Seq<ConditionModel>>) -> Seq<BindModel>
    decreases gs.len(),
{
    if gs.len() == 0 {
        Seq::empty()
    } else {
        groups_binds(gs.drop_last()) + group_binds(gs.last())
    }
}

/// The SQL of each group; the parameters are numbered from `first`.
pub open spec fn groups_sql(gs: Seq<Seq<ConditionModel>>, first: nat) -> Seq<Seq<char>>
    decreases gs.len(),
{
    if gs.len() == 0 {
        Seq::empty()
    } else {
        groups_sql(gs.drop_last(), first).push(
            group_sql(gs.last(), first + groups_binds(gs.drop_last()).len()),
        )
    }
}

/// The values that a rule binds, in order.
pub open spec fn rule_binds(r: RuleModel) -> Seq<BindModel> {
    if r.grant_on_any_relation {
        Seq::empty()
    } else {
        groups_binds(r.groups)
    }
}

/// The clause of a rule; the parameters are numbered from `offset + 1`.
pub open spec fn rule_sql(r: RuleModel, offset: nat) -> Seq<char> {
    if r.grant_on_any_relation {
        "TRUE"@
    } else if r.groups.len() == 0 {
        "FALSE"@
    } else {
        "("@ + joined(groups_sql(r.groups, offset + 1), " OR "@) + ")"@
    }
}

// ---------------------------------------------------------------------------
// Building the clause
// ---------------------------------------------------------------------------

fn target_expr(target: ConditionTarget) -> (r: &'static str)
    ensures
        r@ == target_sql(target),
{
    match target {
        ConditionTarget::HasActiveSubscription => "mf.has_active_subscription",
        ConditionTarget::SubscriptionStatus => "mf.subscription_status",
        ConditionTarget::IsTrialing => "mf.is_trialing",
        ConditionTarget::IsPastDue => "mf.is_past_due",
        ConditionTarget::CancelsAtPeriodEnd => "mf.cancels_at_period_end",
        ConditionTarget::ActiveSubscriptionCount => "mf.active_subscription_count",
        ConditionTarget::SubscribedToProduct => "mf.product_ids",
        ConditionTarget::SubscribedToPrice => "mf.price_ids",
        ConditionTarget::PlanAmount => "mf.plan_amount_cents",
        ConditionTarget::BillingInterval => "mf.billing_interval",
        ConditionTarget::SubscriptionAgeDays =>
            "TRUNC(EXTRACT(EPOCH FROM (now() - mf.subscription_started_at)) / 86400)",
        ConditionTarget::DaysUntilRenewal =>
            "TRUNC(EXTRACT(EPOCH FROM (mf.current_period_end - now())) / 86400)",
        ConditionTarget::TotalMrr => "mf.total_mrr_cents",
        ConditionTarget::IsCustomer => "mf.is_customer",
        ConditionTarget::CustomerAgeDays =>
            "TRUNC(EXTRACT(EPOCH FROM (now() - mf.customer_created_at)) / 86400)",
        ConditionTarget::IsDelinquent => "mf.is_delinquent",
        ConditionTarget::LifetimeSpend => "mf.lifetime_spend_cents",
        ConditionTarget::SuccessfulPayments => "mf.successful_payments",
        ConditionTarget::CountryCode => "mf.country_code",
        ConditionTarget::Currency => "mf.currency",
        ConditionTarget::EmailDomain => "mf.email_domain",
    }
}

/// Puts a backslash before each character that `LIKE` gives a meaning.
pub fn escape_like(s: &str) -> (r: String)
    ensures
        r@ == escaped(s@),
{
    let chars = chars_of(s);
    let mut out = String::new();
    let mut i: usize = 0;
    proof {
        assert(s@.skip(0) =~= s@);
    }
    while i < chars.len()
        invariant
            chars@ == s@,
            i <= chars.len(),
            out@ + escaped(s@.skip(i as int)) =~= escaped(s@),
        decreases chars.len() - i,
    {
        let c = chars[i];
        proof {
            assert(s@.skip(i as int).drop_first() =~= s@.skip(i + 1));
            assert(s@.skip(i as int).first() == c);
        }
        if c == '\\' || c == '%' || c == '_' {
            out.push('\\');
        }
        out.push(c);
        i = i + 1;
    }
    assert(out@ =~= escaped(s@));
    out
}

/// Writes the text of a parameter: a prefix, the number and a suffix.
fn numbered(prefix: String, i: usize, suffix: &str) -> (r: String)
    ensures
        r@ == prefix@ + decimal(i as nat) + suffix@,
{
    let mut out = prefix;
    out.append(decimal_u64(i as u64).as_str());
    out.append(suffix);
    out
}

/// Writes one text after another.
fn after(a: &str, b: &str) -> (r: String)
    ensures
        r@ == a@ + b@,
{
    let mut out = a.to_owned();
    out.append(b);
    out
}

proof fn lemma_bind_push(binds: Seq<Bind>, b: Bind)
    ensures
        binds_model(binds.push(b)) == binds_model(binds) + seq![b@],
{
    assert(binds_model(binds.push(b)) =~= binds_model(binds) + seq![b@]);
}

fn str_or_empty(c: &Condition) -> (r: String)
    ensures
        r@ == text_or_empty(c.value@),
{
    match c.value.as_str() {
        Some(s) => s.to_owned(),
        None => {
            let s = String::new();
            assert(s@ =~= Seq::empty());
            s
        },
    }
}

fn int_or_zero(c: &Condition) -> (r: i64)
    ensures
        r == int_or(Some(c.value@), 0),
{
    match c.value.as_i64() {
        Some(n) => n,
        None => 0,
    }
}

fn build_stringlist_condition(c: &Condition, expr: &str, bind_offset: usize, binds: &mut Vec<
    Bind,
>) -> (r: String)
    requires
        bind_offset + old(binds)@.len() + test_binds(list_test(c@)).len() <= usize::MAX,
    ensures
        r@ == test_sql(expr@, list_test(c@), (bind_offset + old(binds)@.len() + 1) as nat),
        binds_model(final(binds)@) == binds_model(old(binds)@) + test_binds(list_test(c@)),
{
    match c.operator {
        ConditionOperator::Eq => {
            let i: usize = bind_offset + binds.len() + 1;
            let b = Bind::Text(str_or_empty(c));
            proof {
                lemma_bind_push(binds@, b);
            }
            binds.push(b);
            let mut tail = after(" = ANY(", expr);
            tail.append(")");
            let r = numbered("$".to_owned(), i, tail.as_str());
            assert(r@ =~= "$"@ + decimal(i as nat) + " = ANY("@ + expr@ + ")"@);
            r
        },
        ConditionOperator::In => {
            let arr = c.value.strings();
            if arr.len() == 0 {
                assert(json_strings(c.value@).len() == 0);
                assert(binds_model(binds@) =~= binds_model(binds@) + Seq::empty());
                return "FALSE".to_owned();
            }
            assert(json_strings(c.value@).len() > 0);
            let i: usize = bind_offset + binds.len() + 1;
            let b = Bind::TextArray(arr);
            proof {
                lemma_bind_push(binds@, b);
            }
            binds.push(b);
            let mut head = after("(", expr);
            head.append(" && $");
            numbered(head, i, "::text[])")
        },
        ConditionOperator::NotIn => {
            let arr = c.value.strings();
            if arr.len() == 0 {
                assert(json_strings(c.value@).len() == 0);
                assert(binds_model(binds@) =~= binds_model(binds@) + Seq::empty());
                return "TRUE".to_owned();
            }
            assert(json_strings(c.value@).len() > 0);
            let i: usize = bind_offset + binds.len() + 1;
            let b = Bind::TextArray(arr);
            proof {
                lemma_bind_push(binds@, b);
            }
            binds.push(b);
            let mut head = after("(NOT (", expr);
            head.append(" && $");
            numbered(head, i, "::text[]))")
        },
        _ => {
            assert(binds_model(binds@) =~= binds_model(binds@) + Seq::empty());
            "FALSE".to_owned()
        },
    }
}

/// Binds one value and writes a test whose parameter stands between a head and
/// a tail.
fn bind_one(head: String, b: Bind, tail: &str, bind_offset: usize, binds: &mut Vec<Bind>) -> (r:
    String)
    requires
        bind_offset + old(binds)@.len() + 1 <= usize::MAX,
    ensures
        r@ == head@ + decimal((bind_offset + old(binds)@.len() + 1) as nat) + tail@,
        binds_model(final(binds)@) == binds_model(old(binds)@) + seq![b@],
{
    let i: usize = bind_offset + binds.len() + 1;
    proof {
        lemma_bind_push(binds@, b);
    }
    binds.push(b);
    numbered(head, i, tail)
}

proof fn lemma_no_tail(a: Seq<char>)
    ensures
        a + ""@ == a,
{
    reveal_strlit("");
    assert(a + ""@ =~= a);
}

/// Writes one condition and binds its values.
pub fn build_condition(c: &Condition, bind_offset: usize, binds: &mut Vec<Bind>) -> (r: String)
    requires
        bind_offset + old(binds)@.len() + test_binds(condition_test(c@)).len() <= usize::MAX,
    ensures
        r@ == test_sql(
            target_sql(c.target),
            condition_test(c@),
            (bind_offset + old(binds)@.len() + 1) as nat,
        ),
        binds_model(final(binds)@) == binds_model(old(binds)@) + test_binds(condition_test(c@)),
{
    let expr = target_expr(c.target);
    if c.target.kind() == TargetKind::StringList {
        return build_stringlist_condition(c, expr, bind_offset, binds);
    }
    let ghost i = (bind_offset + old(binds)@.len() + 1) as nat;
    let ghost e = expr@;
    let op = c.operator;
    match op {
        ConditionOperator::Eq => {
            proof {
                lemma_no_tail(e + " = $"@ + decimal(i));
            }
            let b = match (c.value.as_bool(), c.value.as_i64()) {
                (Some(b), _) => Bind::Bool(b),
                (None, Some(n)) => Bind::Int(n),
                (None, None) => Bind::Text(str_or_empty(c)),
            };
            bind_one(after(expr, " = $"), b, "", bind_offset, binds)
        },
        ConditionOperator::Neq => match c.value.as_i64() {
            Some(n) => {
                proof {
                    lemma_no_tail(e + " <> $"@ + decimal(i));
                }
                bind_one(after(expr, " <> $"), Bind::Int(n), "", bind_offset, binds)
            },
            None => {
                proof {
                    lemma_no_tail(e + " IS DISTINCT FROM $"@ + decimal(i));
                }
                bind_one(
                    after(expr, " IS DISTINCT FROM $"),
                    Bind::Text(str_or_empty(c)),
                    "",
                    bind_offset,
                    binds,
                )
            },
        },
        ConditionOperator::Gt
        | ConditionOperator::Gte
        | ConditionOperator::Lt
        | ConditionOperator::Lte => {
            let sign = match op {
                ConditionOperator::Gt => ") > $",
                ConditionOperator::Gte => ") >= $",
                ConditionOperator::Lt => ") < $",
                _ => ") <= $",
            };
            proof {
                lemma_no_tail("("@ + e + sign@ + decimal(i));
            }
            let mut head = after("(", expr);
            head.append(sign);
            bind_one(head, Bind::Int(int_or_zero(c)), "", bind_offset, binds)
        },
        ConditionOperator::Between => {
            let lo = int_or_zero(c);
            let hi = match &c.value_end {
                Some(end) => match end.as_i64() {
                    Some(n) => n,
                    None => lo,
                },
                None => lo,
            };
            let mut head = after("((", expr);
            head.append(") >= $");
            let mut next = bind_one(head, Bind::Int(lo), " AND (", bind_offset, binds);
            next.append(expr);
            next.append(") <= $");
            proof {
                assert(binds_model(binds@).len() == binds_model(old(binds)@).len() + 1);
            }
            let r = bind_one(next, Bind::Int(hi), ")", bind_offset, binds);
            proof {
                assert(binds_model(old(binds)@) + seq![BindModel::Int(lo)] + seq![
                    BindModel::Int(hi),
                ] =~= binds_model(old(binds)@) + seq![BindModel::Int(lo), BindModel::Int(hi)]);
            }
            r
        },
        ConditionOperator::Contains => {
            let escaped_text = escape_like(str_or_empty(c).as_str());
            let mut pattern = String::new();
            pattern.push('%');
            pattern.append(escaped_text.as_str());
            pattern.push('%');
            proof {
                lemma_no_tail(e + " LIKE $"@ + decimal(i));
                assert(pattern@ =~= containing(text_or_empty(c.value@)));
            }
            bind_one(after(expr, " LIKE $"), Bind::Text(pattern), "", bind_offset, binds)
        },
        ConditionOperator::Regex => {
            proof {
                lemma_no_tail(e + " ~ $"@ + decimal(i));
            }
            bind_one(after(expr, " ~ $"), Bind::Text(str_or_empty(c)), "", bind_offset, binds)
        },
        ConditionOperator::In => {
            let arr = c.value.strings();
            if arr.len() == 0 {
                assert(json_strings(c.value@).len() == 0);
                assert(binds_model(binds@) =~= binds_model(binds@) + Seq::empty());
                return "FALSE".to_owned();
            }
            assert(json_strings(c.value@).len() > 0);
            bind_one(
                after(expr, " = ANY($"),
                Bind::TextArray(arr),
                "::text[])",
                bind_offset,
                binds,
            )
        },
        ConditionOperator::NotIn => {
            let arr = c.value.strings();
            if arr.len() == 0 {
                assert(json_strings(c.value@).len() == 0);
                assert(binds_model(binds@) =~= binds_model(binds@) + Seq::empty());
                return after(expr, " IS NOT NULL");
            }
            assert(json_strings(c.value@).len() > 0);
            let mut head = after("(", expr);
            head.append(" IS NOT NULL AND ");
            head.append(expr);
            head.append(" <> ALL($");
            bind_one(head, Bind::TextArray(arr), "::text[]))", bind_offset, binds)
        },
    }
}

proof fn lemma_group_binds_prefix(g: Seq<ConditionModel>, k: int)
    requires
        0 <= k <= g.len(),
    ensures
        group_binds(g.take(k)).len() <= group_binds(g).len(),
    decreases g.len() - k,
{
    if k < g.len() {
        lemma_group_binds_prefix(g, k + 1);
        assert(g.take(k + 1).drop_last() =~= g.take(k));
    } else {
        assert(g.take(k) =~= g);
    }
}

proof fn lemma_groups_binds_prefix(gs: Seq<Seq<ConditionModel>>, k: int)
    requires
        0 <= k <= gs.len(),
    ensures
        groups_binds(gs.take(k)).len() <= groups_binds(gs).len(),
    decreases gs.len() - k,
{
    if k < gs.len() {
        lemma_groups_binds_prefix(gs, k + 1);
        assert(gs.take(k + 1).drop_last() =~= gs.take(k));
    } else {
        assert(gs.take(k) =~= gs);
    }
}

/// Writes one group and binds its values.
fn build_group(group: &ConditionGroup, bind_offset: usize, binds: &mut Vec<Bind>) -> (r: String)
    requires
        bind_offset + old(binds)@.len() + group_binds(group@).len() <= usize::MAX,
    ensures
        r@ == group_sql(group@, (bind_offset + old(binds)@.len() + 1) as nat),
        binds_model(final(binds)@) == binds_model(old(binds)@) + group_binds(group@),
{
    if group.conditions.len() == 0 {
        assert(binds_model(binds@) =~= binds_model(binds@) + Seq::empty());
        return "FALSE".to_owned();
    }
    let ghost before = binds_model(binds@);
    let ghost first = (bind_offset + binds@.len() + 1) as nat;
    let mut clauses: Vec<String> = Vec::new();
    let mut k: usize = 0;
    proof {
        assert(group@.take(0) =~= Seq::empty());
        assert(before + group_binds(group@.take(0)) =~= before);
    }
    while k < group.conditions.len()
        invariant
            k <= group.conditions.len(),
            first == bind_offset + before.len() + 1,
            bind_offset + before.len() + group_binds(group@).len() <= usize::MAX,
            binds_model(binds@) == before + group_binds(group@.take(k as int)),
            texts(clauses@) =~= group_tests(group@.take(k as int), first),
        decreases group.conditions.len() - k,
    {
        proof {
            let next = group@.take(k + 1);
            assert(next.drop_last() =~= group@.take(k as int));
            assert(next.last() == group.conditions@[k as int]@);
            lemma_group_binds_prefix(group@, k + 1);
            assert(binds_model(binds@).len() == binds@.len());
        }
        let clause = build_condition(&group.conditions[k], bind_offset, binds);
        clauses.push(clause);
        proof {
            assert(binds_model(binds@) =~= before + group_binds(group@.take(k + 1)));
        }
        k = k + 1;
    }
    assert(group@.take(k as int) =~= group@);
    let inner = join(&clauses, " AND ");
    let mut out = after("(", inner.as_str());
    out.append(")");
    out
}

/// Writes the clause of a rule and the values that it binds. The parameters are
/// numbered from `bind_offset + 1`.
///
/// A rule that grants on no relation and has no groups gives `FALSE`; one that
/// grants on any relation gives `TRUE`.
pub fn build_rule_where(tree: &RuleTree, bind_offset: usize) -> (r: (String, Vec<Bind>))
    requires
        bind_offset + rule_binds(tree@).len() <= usize::MAX,
    ensures
        r.0@ == rule_sql(tree@, bind_offset as nat),
        binds_model(r.1@) == rule_binds(tree@),
{
    let mut binds: Vec<Bind> = Vec::new();
    proof {
        assert(binds_model(binds@) =~= Seq::empty());
    }
    if tree.grant_on_any_relation {
        return ("TRUE".to_owned(), binds);
    }
    if tree.groups.len() == 0 {
        return ("FALSE".to_owned(), binds);
    }
    let mut clauses: Vec<String> = Vec::new();
    let mut k: usize = 0;
    proof {
        assert(tree@.groups.take(0) =~= Seq::empty());
    }
    while k < tree.groups.len()
        invariant
            k <= tree.groups.len(),
            bind_offset + groups_binds(tree@.groups).len() <= usize::MAX,
            binds_model(binds@) == groups_binds(tree@.groups.take(k as int)),
            texts(clauses@) =~= groups_sql(
                tree@.groups.take(k as int),
                (bind_offset + 1) as nat,
            ),
        decreases tree.groups.len() - k,
    {
        proof {
            let next = tree@.groups.take(k + 1);
            assert(next.drop_last() =~= tree@.groups.take(k as int));
            assert(next.last() == tree.groups@[k as int]@);
            lemma_groups_binds_prefix(tree@.groups, k + 1);
            assert(binds_model(binds@).len() == binds@.len());
        }
        let clause = build_group(&tree.groups[k], bind_offset, &mut binds);
        clauses.push(clause);
        k = k + 1;
    }
    assert(tree@.groups.take(k as int) =~= tree@.groups);
    let inner = join(&clauses, " OR ");
    let mut out = after("(", inner.as_str());
    out.append(")");
    (out, binds)
}

// ---------------------------------------------------------------------------
// What the clause selects
// ---------------------------------------------------------------------------

/// The value of a column, or of an expression over one.
pub enum ColumnValue {
    Unknown,
    Bool(bool),
    Int(int),
    Text(Seq<char>),
    List(Seq<Seq<char>>),
}

pub open spec fn known_text(s: Option<Seq<char>>) -> ColumnValue {
    match s {
        Some(t) => ColumnValue::Text(t),
        None => ColumnValue::Unknown,
    }
}

/// `TRUNC` of the days between two points in time; the database has no value
/// where a point in time is unknown.
pub open spec fn truncated_days(from: Option<Timestamp>, to: Option<Timestamp>) -> ColumnValue {
    match (from, to) {
        (Some(a), Some(b)) => ColumnValue::Int(days_between(a, b)),
        _ => ColumnValue::Unknown,
    }
}

/// What the expression of a target gives for a member at the given time.
pub open spec fn target_value(target: ConditionTarget, f: FactsModel, now: Timestamp) -> ColumnValue {
    match target {
        ConditionTarget::HasActiveSubscription => ColumnValue::Bool(f.has_active_subscription),
        ConditionTarget::SubscriptionStatus => known_text(f.subscription_status),
        ConditionTarget::IsTrialing => ColumnValue::Bool(f.is_trialing),
        ConditionTarget::IsPastDue => ColumnValue::Bool(f.is_past_due),
        ConditionTarget::CancelsAtPeriodEnd => ColumnValue::Bool(f.cancels_at_period_end),
        ConditionTarget::ActiveSubscriptionCount => ColumnValue::Int(
            f.active_subscription_count as int,
        ),
        ConditionTarget::SubscribedToProduct => ColumnValue::List(f.product_ids),
        ConditionTarget::SubscribedToPrice => ColumnValue::List(f.price_ids),
        ConditionTarget::PlanAmount => ColumnValue::Int(f.plan_amount_cents as int),
        ConditionTarget::BillingInterval => known_text(f.billing_interval),
        ConditionTarget::SubscriptionAgeDays => truncated_days(f.subscription_started_at, Some(now)),
        ConditionTarget::DaysUntilRenewal => truncated_days(Some(now), f.current_period_end),
        ConditionTarget::TotalMrr => ColumnValue::Int(f.total_mrr_cents as int),
        ConditionTarget::IsCustomer => ColumnValue::Bool(f.is_customer),
        ConditionTarget::CustomerAgeDays => truncated_days(f.customer_created_at, Some(now)),
        ConditionTarget::IsDelinquent => ColumnValue::Bool(f.is_delinquent),
        ConditionTarget::LifetimeSpend => ColumnValue::Int(f.lifetime_spend_cents as int),
        ConditionTarget::SuccessfulPayments => ColumnValue::Int(f.successful_payments as int),
        ConditionTarget::CountryCode => known_text(f.country_code),
        ConditionTarget::Currency => known_text(f.currency),
        ConditionTarget::EmailDomain => known_text(f.email_domain),
    }
}

/// `LIKE`: `%` stands for any run of characters, `_` for one, and a backslash
/// takes the meaning from the character after it.
pub open spec fn like(s: Seq<char>, pattern: Seq<char>) -> bool
    decreases s.len(), pattern.len(),
{
    if pattern.len() == 0 {
        s.len() == 0
    } else if pattern[0] == '%' {
        like(s, pattern.drop_first()) || (s.len() > 0 && like(s.drop_first(), pattern))
    } else if s.len() == 0 {
        false
    } else if pattern[0] == '_' {
        like(s.drop_first(), pattern.drop_first())
    } else if pattern[0] == '\\' {
        pattern.len() > 1 && s[0] == pattern[1] && like(s.drop_first(), pattern.skip(2))
    } else {
        s[0] == pattern[0] && like(s.drop_first(), pattern.drop_first())
    }
}

/// The test on the value is true. A comparison with an unknown value is not,
/// except that it is distinct from every text. What a regular expression means
/// to the database is left open.
pub open spec fn test_holds(t: ColumnTest, v: ColumnValue) -> bool {
    match t {
        ColumnTest::Never => false,
        ColumnTest::Always => true,
        ColumnTest::Equals(BindModel::Bool(b)) => v == ColumnValue::Bool(b),
        ColumnTest::Equals(BindModel::Int(n)) => v == ColumnValue::Int(n as int),
        ColumnTest::Equals(BindModel::Text(s)) => v == ColumnValue::Text(s),
        ColumnTest::Equals(BindModel::TextArray(l)) => v == ColumnValue::List(l),
        ColumnTest::Differs(n) => v matches ColumnValue::Int(a) && a != n,
        ColumnTest::DistinctFrom(s) => v is Unknown || (v matches ColumnValue::Text(a) && a != s),
        ColumnTest::Above(n) => v matches ColumnValue::Int(a) && a > n,
        ColumnTest::AtLeast(n) => v matches ColumnValue::Int(a) && a >= n,
        ColumnTest::Below(n) => v matches ColumnValue::Int(a) && a < n,
        ColumnTest::AtMost(n) => v matches ColumnValue::Int(a) && a <= n,
        ColumnTest::Within(lo, hi) => v matches ColumnValue::Int(a) && lo <= a <= hi,
        ColumnTest::Like(p) => v matches ColumnValue::Text(a) && like(a, p),
        ColumnTest::Matches(_) => arbitrary(),
        ColumnTest::Known => !(v is Unknown),
        ColumnTest::AnyOf(l) => v matches ColumnValue::Text(a) && l.contains(a),
        ColumnTest::NoneOf(l) => v matches ColumnValue::Text(a) && !l.contains(a),
        ColumnTest::Has(s) => v matches ColumnValue::List(a) && a.contains(s),
        ColumnTest::Overlaps(l) => v matches ColumnValue::List(a) && overlap(l, a),
        ColumnTest::Disjoint(l) => v matches ColumnValue::List(a) && !overlap(l, a),
    }
}

/// The clause of a rule is true for a member at the given time.
pub open spec fn clause_selects(r: RuleModel, f: FactsModel, now: Timestamp) -> bool {
    ||| r.grant_on_any_relation
    ||| exists|i: int|
        0 <= i < r.groups.len() && group_selects(#[trigger] r.groups[i], f, now)
}

/// The clause of a group is true for a member at the given time.
pub open spec fn group_selects(g: Seq<ConditionModel>, f: FactsModel, now: Timestamp) -> bool {
    &&& g.len() > 0
    &&& forall|k: int| 0 <= k < g.len() ==> condition_selects(#[trigger] g[k], f, now)
}

/// The clause of a condition is true for a member at the given time.
pub open spec fn condition_selects(c: ConditionModel, f: FactsModel, now: Timestamp) -> bool {
    test_holds(condition_test(c), target_value(c.target, f, now))
}

/// The operator is valid for the target and the literal is of the target's
/// kind.
pub open spec fn well_typed(c: ConditionModel) -> bool {
    &&& operator_valid_for(c.operator, target_kind(c.target))
    &&& match target_kind(c.target) {
        TargetKind::Bool => json_bool(c.value) is Some,
        TargetKind::Int => {
            &&& json_i64(c.value) is Some
            &&& c.operator is Between ==> c.value_end is Some && json_i64(c.value_end->0) is Some
        },
        TargetKind::String | TargetKind::StringList => c.operator is In || c.operator is NotIn
            || json_str(c.value) is Some,
    }
}

/// The condition is well typed and has no regular expression, whose
/// language the database and the evaluator do not share.
pub open spec fn same_language(c: ConditionModel) -> bool {
    well_typed(c) && !(c.operator is Regex)
}

proof fn lemma_any_run(s: Seq<char>)
    ensures
        like(s, seq!['%']),
    decreases s.len(),
{
    let p = seq!['%'];
    assert(p.drop_first() =~= Seq::empty());
    reveal_with_fuel(like, 2);
    if s.len() > 0 {
        lemma_any_run(s.drop_first());
    }
}

/// An escaped text in a pattern stands for itself.
proof fn lemma_escaped_is_literal(s: Seq<char>, v: Seq<char>, rest: Seq<char>)
    ensures
        like(s, escaped(v) + rest) <==> v.len() <= s.len() && s.take(v.len() as int) == v && like(
            s.skip(v.len() as int),
            rest,
        ),
    decreases v.len(),
{
    let p = escaped(v) + rest;
    if v.len() == 0 {
        assert(p =~= rest);
        assert(s.take(0) =~= v);
        assert(s.skip(0) =~= s);
    } else {
        let c = v.first();
        let w = v.drop_first();
        if special(c) {
            assert(p.skip(2) =~= escaped(w) + rest);
            assert(p[0] == '\\' && p[1] == c);
        } else {
            assert(p.drop_first() =~= escaped(w) + rest);
            assert(p[0] == c);
        }
        if s.len() > 0 {
            let t = s.drop_first();
            lemma_escaped_is_literal(t, w, rest);
            if w.len() <= t.len() {
                assert(t.skip(w.len() as int) =~= s.skip(v.len() as int));
            }
            if s[0] == c && w.len() <= t.len() && t.take(w.len() as int) == w {
                assert forall|i: int| 0 <= i < v.len() implies s.take(v.len() as int)[i] == v[i] by {
                    if i > 0 {
                        assert(t.take(w.len() as int)[i - 1] == w[i - 1]);
                    }
                }
                assert(s.take(v.len() as int) =~= v);
            }
            if v.len() <= s.len() && s.take(v.len() as int) == v {
                assert(s.take(v.len() as int)[0] == s[0]);
                assert forall|i: int| 0 <= i < w.len() implies t.take(w.len() as int)[i] == w[i] by {
                    assert(s.take(v.len() as int)[i + 1] == v[i + 1]);
                }
                assert(t.take(w.len() as int) =~= w);
            }
        }
    }
}

/// A text in a pattern, read back: a backslash is dropped and the character
/// after it is kept.
pub open spec fn unescaped(s: Seq<char>) -> Seq<char>
    decreases s.len(),
{
    if s.len() == 0 {
        Seq::empty()
    } else if s[0] == '\\' && s.len() > 1 {
        seq![s[1]] + unescaped(s.skip(2))
    } else {
        seq![s[0]] + unescaped(s.drop_first())
    }
}

/// Some `%` or `_` of a pattern has its meaning.
pub open spec fn has_wildcard(s: Seq<char>) -> bool
    decreases s.len(),
{
    if s.len() == 0 {
        false
    } else if s[0] == '\\' {
        s.len() > 1 && has_wildcard(s.skip(2))
    } else {
        s[0] == '%' || s[0] == '_' || has_wildcard(s.drop_first())
    }
}

/// How many characters of a text `LIKE` gives a meaning.
pub open spec fn special_count(s: Seq<char>) -> nat
    decreases s.len(),
{
    if s.len() == 0 {
        0
    } else {
        special_count(s.drop_first()) + if special(s.first()) {
            1nat
        } else {
            0
        }
    }
}

/// Two texts escaped one after the other are their escaped join.
pub proof fn escaping_goes_part_by_part(a: Seq<char>, b: Seq<char>)
    ensures
        escaped(a + b) == escaped(a) + escaped(b),
    decreases a.len(),
{
    if a.len() == 0 {
        assert(a + b =~= b);
        assert(escaped(a) + escaped(b) =~= escaped(b));
    } else {
        escaping_goes_part_by_part(a.drop_first(), b);
        assert((a + b).drop_first() =~= a.drop_first() + b);
        assert((a + b).first() == a.first());
        assert(escaped(a + b) =~= escaped(a) + escaped(b));
    }
}

/// An escaped text reads back as the text, has no wildcard, and is longer by one
/// backslash for each character that needs it.
pub proof fn escaping_reads_back(a: Seq<char>)
    ensures
        unescaped(escaped(a)) == a,
        !has_wildcard(escaped(a)),
        escaped(a).len() == a.len() + special_count(a),
    decreases a.len(),
{
    if a.len() > 0 {
        let rest = a.drop_first();
        escaping_reads_back(rest);
        let e = escaped(a);
        assert(seq![a.first()] + rest =~= a);
        if special(a.first()) {
            assert(e[0] == '\\' && e[1] == a.first());
            assert(e.skip(2) =~= escaped(rest));
        } else {
            assert(e[0] == a.first());
            assert(e.drop_first() =~= escaped(rest));
        }
    }
}

/// Texts that differ are escaped to texts that differ.
pub proof fn escaping_is_injective(a: Seq<char>, b: Seq<char>)
    requires
        escaped(a) == escaped(b),
    ensures
        a == b,
{
    escaping_reads_back(a);
    escaping_reads_back(b);
}

/// The pattern of a text selects the texts that have it as a part.
pub proof fn pattern_selects_substrings(s: Seq<char>, v: Seq<char>)
    ensures
        like(s, containing(v)) == has_substring(s, v),
    decreases s.len(),
{
    let p = containing(v);
    assert(p.drop_first() =~= escaped(v) + seq!['%']);
    assert(p[0] == '%');
    lemma_escaped_is_literal(s, v, seq!['%']);
    let here = v.len() <= s.len() && s.take(v.len() as int) == v;
    if here {
        lemma_any_run(s.skip(v.len() as int));
        assert(s.subrange(0, v.len() as int) =~= s.take(v.len() as int));
        assert(occurs_at(s, v, 0));
    }
    if s.len() > 0 {
        let t = s.drop_first();
        pattern_selects_substrings(t, v);
        if has_substring(t, v) {
            let i = choose|i: int| occurs_at(t, v, i);
            assert(s.subrange(i + 1, i + 1 + v.len()) =~= t.subrange(i, i + v.len()));
            assert(occurs_at(s, v, i + 1));
        }
        if has_substring(s, v) && !here {
            let i = choose|i: int| occurs_at(s, v, i);
            assert(s.subrange(0, v.len() as int) =~= s.take(v.len() as int));
            assert(i > 0);
            assert(t.subrange(i - 1, i - 1 + v.len()) =~= s.subrange(i, i + v.len()));
            assert(occurs_at(t, v, i - 1));
        }
    } else if has_substring(s, v) {
        let i = choose|i: int| occurs_at(s, v, i);
        assert(s.take(v.len() as int) =~= s.subrange(i, i + v.len()));
    }
}

/// A condition selects the members that satisfy it.
pub proof fn condition_selects_whom_it_admits(c: ConditionModel, f: FactsModel, now: Timestamp)
    requires
        same_language(c),
    ensures
        condition_selects(c, f, now) == condition_holds(c, f, now),
{
    match target_value(c.target, f, now) {
        ColumnValue::Text(a) => {
            if c.operator is Contains {
                pattern_selects_substrings(a, text_or_empty(c.value));
            }
        },
        ColumnValue::List(a) => {
            if json_strings(c.value).len() == 0 {
                assert(!overlap(json_strings(c.value), a));
            }
        },
        _ => {},
    }
}

/// The clause of a rule selects exactly the members that the rule admits.
pub proof fn clause_selects_whom_the_rule_admits(r: RuleModel, f: FactsModel, now: Timestamp)
    requires
        !r.grant_on_any_relation ==> forall|i: int, k: int|
            0 <= i < r.groups.len() && 0 <= k < r.groups[i].len() ==> same_language(
                #[trigger] r.groups[i][k],
            ),
    ensures
        clause_selects(r, f, now) == rule_holds(r, f, now),
{
    if !r.grant_on_any_relation {
        assert forall|i: int| 0 <= i < r.groups.len() implies group_selects(
            #[trigger] r.groups[i],
            f,
            now,
        ) == group_holds(r.groups[i], f, now) by {
            let g = r.groups[i];
            assert forall|k: int| 0 <= k < g.len() implies condition_selects(
                #[trigger] g[k],
                f,
                now,
            ) == condition_holds(g[k], f, now) by {
                assert(same_language(r.groups[i][k]));
                condition_selects_whom_it_admits(g[k], f, now);
            }
            if group_selects(g, f, now) {
                assert forall|k: int| 0 <= k < g.len() implies condition_holds(
                    #[trigger] g[k],
                    f,
                    now,
                ) by {
                    assert(condition_selects(g[k], f, now));
                }
            }
            if group_holds(g, f, now) {
                assert forall|k: int| 0 <= k < g.len() implies condition_selects(
                    #[trigger] g[k],
                    f,
                    now,
                ) by {
                    assert(condition_holds(g[k], f, now));
                }
            }
        }
    }
}

/// The parameters of each group are numbered on from the values that the groups
/// before it bind, and its own values stand at these places.
pub proof fn groups_number_their_parameters_on(
    gs: Seq<Seq<ConditionModel>>,
    k: int,
    first: nat,
)
    requires
        0 <= k < gs.len(),
    ensures
        groups_sql(gs, first).len() == gs.len(),
        groups_sql(gs, first)[k] == group_sql(gs[k], first + groups_binds(gs.take(k)).len()),
        ({
            let from = groups_binds(gs.take(k)).len() as int;
            let to = from + group_binds(gs[k]).len();
            to <= groups_binds(gs).len() && groups_binds(gs).subrange(from, to) == group_binds(gs[k])
        }),
    decreases gs.len(),
{
    lemma_groups_sql_len(gs, first);
    lemma_groups_sql_len(gs.drop_last(), first);
    let from = groups_binds(gs.take(k)).len() as int;
    let to = from + group_binds(gs[k]).len();
    if k == gs.len() - 1 {
        assert(gs.drop_last() =~= gs.take(k));
        assert(groups_binds(gs).subrange(from, to) =~= group_binds(gs[k]));
    } else {
        groups_number_their_parameters_on(gs.drop_last(), k, first);
        assert(gs.drop_last().take(k) =~= gs.take(k));
        assert(groups_binds(gs).subrange(from, to) =~= groups_binds(gs.drop_last()).subrange(
            from,
            to,
        ));
    }
}

proof fn lemma_groups_sql_len(gs: Seq<Seq<ConditionModel>>, first: nat)
    ensures
        groups_sql(gs, first).len() == gs.len(),
    decreases gs.len(),
{
    if gs.len() > 0 {
        lemma_groups_sql_len(gs.drop_last(), first);
    }
}

} // verus!
