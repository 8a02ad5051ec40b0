//! A rule's clause, read as the text that it is.
//!
//! Read by `crate::services::sql_text`, the text of a clause selects exactly the
//! members that the rule admits.
use vstd::prelude::*;
use crate::clock::{days_between, Timestamp, NANOS_PER_DAY};
use crate::models::condition::{ConditionModel, ConditionTarget};
use crate::models::facts::FactsModel;
use crate::models::rule::{RuleModel, RuleTree};
use crate::numeral::{decimal, digits_value, is_digit, lemma_decimal};
use crate::services::condition_eval::{overlap, rule_holds};
use crate::services::rule_sql::{
    binds_model, build_rule_where, clause_selects_whom_the_rule_admits, condition_selects,
    condition_test, group_binds, group_selects, group_sql, group_tests, groups_binds, groups_sql,
    like, rule_binds, rule_sql, same_language, target_sql, target_value, test_binds, test_holds,
    test_sql, Bind, BindModel, ColumnTest, ColumnValue,
};
use crate::services::sql_text::{
    and_value, applied, bound, called, class, closed, column, conjunction, is_true, opened,
    operand, or_value, read, shares, sign, step, stretch, text_selects, token, value_of,
    word_length, word_read, words, Call, Class, Frame, Op, Setting, SqlValue, Tense, Token,
};
use crate::services::sync::members_query;
use crate::routes::admin::count_query;
use crate::text::joined;

verus! {

// ---------------------------------------------------------------------------
// Words of texts put together
// ---------------------------------------------------------------------------

/// No word reaches from the one text into the other.
spec fn apart(a: Seq<char>, b: Seq<char>) -> bool {
    ||| a.len() == 0
    ||| b.len() == 0
    ||| class(a.last()) is Space
    ||| class(a.last()) is Bracket
    ||| class(b[0]) is Space
    ||| class(b[0]) is Bracket
    ||| class(a.last()) != class(b[0])
}

proof fn lemma_stretch(s: Seq<char>, k: Class)
    ensures
        stretch(s, k) <= s.len(),
        forall|i: int| 0 <= i < stretch(s, k) ==> class(#[trigger] s[i]) == k,
        stretch(s, k) < s.len() ==> class(s[stretch(s, k) as int]) != k,
    decreases s.len(),
{
    if s.len() > 0 && class(s[0]) == k {
        lemma_stretch(s.drop_first(), k);
        assert forall|i: int| 0 <= i < stretch(s, k) implies class(#[trigger] s[i]) == k by {
            if i > 0 {
                assert(s.drop_first()[i - 1] == s[i]);
            }
        }
        if stretch(s, k) < s.len() {
            assert(s.drop_first()[stretch(s, k) - 1] == s[stretch(s, k) as int]);
        }
    }
}

proof fn lemma_stretch_on(a: Seq<char>, b: Seq<char>, k: Class)
    requires
        stretch(a, k) < a.len() || b.len() == 0 || class(b[0]) != k,
    ensures
        stretch(a + b, k) == stretch(a, k),
    decreases a.len(),
{
    let s = a + b;
    if a.len() == 0 {
        assert(s =~= b);
    } else {
        assert(s[0] == a[0]);
        if class(a[0]) == k {
            assert(s.drop_first() =~= a.drop_first() + b);
            lemma_stretch_on(a.drop_first(), b, k);
        }
    }
}

proof fn lemma_words_cat(a: Seq<char>, b: Seq<char>)
    requires
        apart(a, b),
    ensures
        words(a + b) == words(a) + words(b),
    decreases a.len(),
{
    let s = a + b;
    if a.len() == 0 {
        assert(s =~= b);
        assert(words(a) + words(b) =~= words(b));
    } else {
        assert(s[0] == a[0]);
        if class(a[0]) is Space {
            let rest = a.drop_first();
            assert(s.drop_first() =~= rest + b);
            if rest.len() > 0 {
                assert(rest.last() == a.last());
            }
            lemma_words_cat(rest, b);
        } else {
            let k = class(a[0]);
            lemma_stretch(a, k);
            reveal_with_fuel(stretch, 2);
            assert(stretch(a, k) > 0);
            let n = word_length(a) as int;
            if !(k is Bracket) {
                if stretch(a, k) == a.len() {
                    assert(class(a[a.len() - 1]) == k);
                }
                lemma_stretch_on(a, b, k);
            }
            assert(word_length(s) == n);
            let rest = a.skip(n);
            assert(s.skip(n) =~= rest + b);
            assert(s.take(n) =~= a.take(n));
            if rest.len() > 0 {
                assert(rest.last() == a.last());
            }
            lemma_words_cat(rest, b);
            assert(words(s) =~= words(a) + words(b));
        }
    }
}

/// A text of names or of signs alone is one word.
proof fn lemma_one_word(w: Seq<char>, k: Class)
    requires
        w.len() > 0,
        k is Name || k is Sign,
        forall|i: int| 0 <= i < w.len() ==> class(#[trigger] w[i]) == k,
    ensures
        words(w) == seq![w],
{
    lemma_stretch(w, k);
    assert(class(w[0]) == k);
    assert(stretch(w, k) == w.len()) by {
        if stretch(w, k) < w.len() {
            assert(class(w[stretch(w, k) as int]) == k);
        }
    }
    assert(w.take(w.len() as int) =~= w);
    assert(w.skip(w.len() as int) =~= Seq::empty());
    assert(words(w.skip(w.len() as int)) =~= Seq::empty());
    assert(words(w) =~= seq![w]);
}

proof fn lemma_bracket_word(c: char)
    requires
        class(c) is Bracket,
    ensures
        words(seq![c]) == seq![seq![c]],
{
    let w = seq![c];
    assert(w.take(1) =~= w);
    assert(w.skip(1) =~= Seq::empty());
    assert(words(w.skip(1)) =~= Seq::empty());
    assert(words(w) =~= seq![w]);
}

proof fn lemma_space_word()
    ensures
        words(seq![' ']) == Seq::<Seq<char>>::empty(),
{
    let w = seq![' '];
    assert(w.drop_first() =~= Seq::empty());
    assert(words(w.drop_first()) =~= Seq::empty());
}

// ---------------------------------------------------------------------------
// Reading texts put together
// ---------------------------------------------------------------------------

/// The frames after a text.
spec fn scan(frames: Seq<Frame>, text: Seq<char>, at: Setting) -> Seq<Frame> {
    read(frames, words(text), at)
}

proof fn lemma_read_cat(frames: Seq<Frame>, a: Seq<Seq<char>>, b: Seq<Seq<char>>, at: Setting)
    ensures
        read(frames, a + b, at) == read(read(frames, a, at), b, at),
    decreases b.len(),
{
    if b.len() == 0 {
        assert(a + b =~= a);
    } else {
        assert((a + b).drop_last() =~= a + b.drop_last());
        assert((a + b).last() == b.last());
        lemma_read_cat(frames, a, b.drop_last(), at);
    }
}

proof fn lemma_scan_cat(frames: Seq<Frame>, a: Seq<char>, b: Seq<char>, at: Setting)
    requires
        apart(a, b),
    ensures
        scan(frames, a + b, at) == scan(scan(frames, a, at), b, at),
{
    lemma_words_cat(a, b);
    lemma_read_cat(frames, words(a), words(b), at);
}

proof fn lemma_scan_word(frames: Seq<Frame>, w: Seq<char>, k: Class, at: Setting)
    requires
        w.len() > 0,
        k is Name || k is Sign,
        forall|i: int| 0 <= i < w.len() ==> class(#[trigger] w[i]) == k,
    ensures
        scan(frames, w, at) == step(frames, token(w), at),
{
    lemma_one_word(w, k);
    let ws = seq![w];
    assert(ws.drop_last() =~= Seq::empty());
    assert(ws.last() == w);
    reveal_with_fuel(read, 2);
}

proof fn lemma_scan_bracket(frames: Seq<Frame>, c: char, at: Setting)
    requires
        class(c) is Bracket,
    ensures
        scan(frames, seq![c], at) == step(frames, token(seq![c]), at),
{
    lemma_bracket_word(c);
    let w = seq![c];
    let ws = seq![w];
    assert(ws.drop_last() =~= Seq::empty());
    assert(ws.last() == w);
    reveal_with_fuel(read, 2);
}

proof fn lemma_scan_space(frames: Seq<Frame>, at: Setting)
    ensures
        scan(frames, seq![' '], at) == frames,
{
    lemma_space_word();
}

/// A word with a space on either side.
proof fn lemma_scan_spaced(frames: Seq<Frame>, w: Seq<char>, k: Class, at: Setting)
    requires
        w.len() > 0,
        k is Name || k is Sign,
        forall|i: int| 0 <= i < w.len() ==> class(#[trigger] w[i]) == k,
    ensures
        scan(frames, seq![' '] + w + seq![' '], at) == step(frames, token(w), at),
        scan(frames, seq![' '] + w, at) == step(frames, token(w), at),
{
    lemma_scan_space(frames, at);
    lemma_scan_cat(frames, seq![' '], w, at);
    lemma_scan_word(frames, w, k, at);
    lemma_scan_cat(frames, seq![' '] + w, seq![' '], at);
    lemma_scan_space(step(frames, token(w), at), at);
}

proof fn lemma_step(outer: Seq<Frame>, t: Frame, w: Token, at: Setting)
    requires
        !(w is Open) && !(w is Close),
    ensures
        step(outer.push(t), w, at) == outer.push(word_read(t, w, at)),
{
    assert(outer.push(t).drop_last() =~= outer);
    assert(outer.push(t).last() == t);
}

proof fn lemma_open(outer: Seq<Frame>, t: Frame, at: Setting)
    ensures
        scan(outer.push(t), seq!['('], at) == outer.push(Frame { calling: Call::Plain, ..t }).push(
            opened(t.calling),
        ),
{
    lemma_scan_bracket(outer.push(t), '(', at);
    assert(token(seq!['(']) is Open);
    assert(outer.push(t).drop_last() =~= outer);
    assert(outer.push(t).last() == t);
}

proof fn lemma_close(outer: Seq<Frame>, below: Frame, t: Frame, at: Setting)
    ensures
        scan(outer.push(below).push(t), seq![')'], at) == outer.push(
            operand(below, called(t, at), at),
        ),
{
    let frames = outer.push(below).push(t);
    lemma_scan_bracket(frames, ')', at);
    assert(!(seq![')'] =~= seq!['('])) by {
        assert(seq![')'][0] != seq!['('][0]);
    }
    assert(token(seq![')']) is Close);
    assert(frames.drop_last() =~= outer.push(below));
    assert(frames.last() == t);
    assert(outer.push(below).drop_last() =~= outer);
    assert(outer.push(below).last() == below);
}

/// Nothing of a condition was read yet.
spec fn ready(t: Frame) -> bool {
    &&& t.left is None
    &&& t.sign is None
    &&& t.is is Nothing
    &&& t.calling is Plain
    &&& !t.negated
}

/// The frame with a condition read.
spec fn with_left(t: Frame, v: SqlValue) -> Frame {
    Frame { left: Some(v), ..t }
}

// ---------------------------------------------------------------------------
// The words of SQL
// ---------------------------------------------------------------------------
/// All characters of the text are of the class.
spec fn all_of(w: Seq<char>, k: Class) -> bool {
    w.len() > 0 && forall|i: int| 0 <= i < w.len() ==> class(#[trigger] w[i]) == k
}

proof fn lemma_keywords()
    ensures
        token("AND"@) == (Token::And),
        all_of("AND"@, Class::Name),
        token("OR"@) == (Token::Or),
        all_of("OR"@, Class::Name),
        token("NOT"@) == (Token::Not),
        all_of("NOT"@, Class::Name),
        token("IS"@) == (Token::Is),
        all_of("IS"@, Class::Name),
        token("NULL"@) == (Token::Null),
        all_of("NULL"@, Class::Name),
        token("DISTINCT"@) == (Token::Distinct),
        all_of("DISTINCT"@, Class::Name),
        token("FROM"@) == (Token::From),
        all_of("FROM"@, Class::Name),
        token("EPOCH"@) == (Token::Epoch),
        all_of("EPOCH"@, Class::Name),
        token("TRUE"@) == (Token::Truth(true)),
        all_of("TRUE"@, Class::Name),
        token("FALSE"@) == (Token::Truth(false)),
        all_of("FALSE"@, Class::Name),
        token("LIKE"@) == (Token::Sign(Op::Like)),
        all_of("LIKE"@, Class::Name),
        token("ANY"@) == (Token::Function(Call::Any)),
        all_of("ANY"@, Class::Name),
        token("ALL"@) == (Token::Function(Call::All)),
        all_of("ALL"@, Class::Name),
        token("TRUNC"@) == (Token::Function(Call::Trunc)),
        all_of("TRUNC"@, Class::Name),
        token("EXTRACT"@) == (Token::Function(Call::Extract)),
        all_of("EXTRACT"@, Class::Name),
        token("now"@) == (Token::Function(Call::Now)),
        all_of("now"@, Class::Name),
        token("text"@) == (Token::Cast),
        all_of("text"@, Class::Name),
{
    reveal_strlit("AND");
    reveal_strlit("OR");
    reveal_strlit("NOT");
    reveal_strlit("IS");
    reveal_strlit("NULL");
    reveal_strlit("DISTINCT");
    reveal_strlit("FROM");
    reveal_strlit("EPOCH");
    reveal_strlit("TRUE");
    reveal_strlit("FALSE");
    reveal_strlit("LIKE");
    reveal_strlit("ANY");
    reveal_strlit("ALL");
    reveal_strlit("TRUNC");
    reveal_strlit("EXTRACT");
    reveal_strlit("now");
    reveal_strlit("text");
    assert("AND"@[2] == 'D');
    assert("OR"@[0] == 'O');
    assert("NOT"@[2] == 'T');
    assert("IS"@[0] == 'I');
    assert("NULL"@[0] == 'N');
    assert("FROM"@[0] == 'F');
    assert("EPOCH"@[0] == 'E');
    assert("TRUE"@[0] == 'T');
    assert("FALSE"@[0] == 'F');
    assert("LIKE"@[0] == 'L');
    assert("ANY"@[2] == 'Y');
    assert("ALL"@[2] == 'L');
    assert("TRUNC"@[0] == 'T');
    assert("now"@[2] == 'w');
    assert("text"@[0] == 't');
}

proof fn lemma_signs()
    ensures
        token(seq!['=']) == Token::Sign(Op::Equal),
        all_of(seq!['='], Class::Sign),
        token(seq!['<', '>']) == Token::Sign(Op::Unequal),
        all_of(seq!['<', '>'], Class::Sign),
        token(seq!['>']) == Token::Sign(Op::Greater),
        all_of(seq!['>'], Class::Sign),
        token(seq!['>', '=']) == Token::Sign(Op::GreaterEqual),
        all_of(seq!['>', '='], Class::Sign),
        token(seq!['<']) == Token::Sign(Op::Less),
        all_of(seq!['<'], Class::Sign),
        token(seq!['<', '=']) == Token::Sign(Op::LessEqual),
        all_of(seq!['<', '='], Class::Sign),
        token(seq!['~']) == Token::Sign(Op::Match),
        all_of(seq!['~'], Class::Sign),
        token(seq!['&', '&']) == Token::Sign(Op::Overlap),
        all_of(seq!['&', '&'], Class::Sign),
        token(seq!['-']) == Token::Sign(Op::Minus),
        all_of(seq!['-'], Class::Sign),
        token(seq!['/']) == Token::Sign(Op::Over),
        all_of(seq!['/'], Class::Sign),
        token(seq![':', ':']) == Token::Cast,
        all_of(seq![':', ':'], Class::Sign),
{
    lemma_sign(seq!['=']);
    lemma_sign(seq!['<', '>']);
    lemma_sign(seq!['>']);
    lemma_sign(seq!['>', '=']);
    lemma_sign(seq!['<']);
    lemma_sign(seq!['<', '=']);
    lemma_sign(seq!['~']);
    lemma_sign(seq!['&', '&']);
    lemma_sign(seq!['-']);
    lemma_sign(seq!['/']);
    lemma_sign(seq![':', ':']);
}

proof fn lemma_sign(w: Seq<char>)
    requires
        0 < w.len() <= 2,
        all_of(w, Class::Sign),
    ensures
        token(w) == sign(w),
{
    assert(class(w[0]) is Sign);
}

/// The names of the columns differ.
proof fn lemma_columns()
    ensures
        "mf.has_active_subscription"@.len() == 26,
        "mf.has_active_subscription"@[3] == 'h',
        token("mf.has_active_subscription"@) == Token::Column("mf.has_active_subscription"@),
        all_of("mf.has_active_subscription"@, Class::Name),
        "mf.subscription_status"@.len() == 22,
        "mf.subscription_status"@[5] == 'b',
        token("mf.subscription_status"@) == Token::Column("mf.subscription_status"@),
        all_of("mf.subscription_status"@, Class::Name),
        "mf.is_trialing"@.len() == 14,
        "mf.is_trialing"@[6] == 't',
        token("mf.is_trialing"@) == Token::Column("mf.is_trialing"@),
        all_of("mf.is_trialing"@, Class::Name),
        "mf.is_past_due"@.len() == 14,
        "mf.is_past_due"@[6] == 'p',
        token("mf.is_past_due"@) == Token::Column("mf.is_past_due"@),
        all_of("mf.is_past_due"@, Class::Name),
        "mf.cancels_at_period_end"@.len() == 24,
        token("mf.cancels_at_period_end"@) == Token::Column("mf.cancels_at_period_end"@),
        all_of("mf.cancels_at_period_end"@, Class::Name),
        "mf.active_subscription_count"@.len() == 28,
        token("mf.active_subscription_count"@) == Token::Column("mf.active_subscription_count"@),
        all_of("mf.active_subscription_count"@, Class::Name),
        "mf.product_ids"@.len() == 14,
        "mf.product_ids"@[6] == 'd',
        token("mf.product_ids"@) == Token::Column("mf.product_ids"@),
        all_of("mf.product_ids"@, Class::Name),
        "mf.price_ids"@.len() == 12,
        token("mf.price_ids"@) == Token::Column("mf.price_ids"@),
        all_of("mf.price_ids"@, Class::Name),
        "mf.plan_amount_cents"@.len() == 20,
        token("mf.plan_amount_cents"@) == Token::Column("mf.plan_amount_cents"@),
        all_of("mf.plan_amount_cents"@, Class::Name),
        "mf.billing_interval"@.len() == 19,
        token("mf.billing_interval"@) == Token::Column("mf.billing_interval"@),
        all_of("mf.billing_interval"@, Class::Name),
        "mf.subscription_started_at"@.len() == 26,
        "mf.subscription_started_at"@[3] == 's',
        token("mf.subscription_started_at"@) == Token::Column("mf.subscription_started_at"@),
        all_of("mf.subscription_started_at"@, Class::Name),
        "mf.current_period_end"@.len() == 21,
        token("mf.current_period_end"@) == Token::Column("mf.current_period_end"@),
        all_of("mf.current_period_end"@, Class::Name),
        "mf.total_mrr_cents"@.len() == 18,
        token("mf.total_mrr_cents"@) == Token::Column("mf.total_mrr_cents"@),
        all_of("mf.total_mrr_cents"@, Class::Name),
        "mf.is_customer"@.len() == 14,
        "mf.is_customer"@[6] == 'c',
        token("mf.is_customer"@) == Token::Column("mf.is_customer"@),
        all_of("mf.is_customer"@, Class::Name),
        "mf.customer_created_at"@.len() == 22,
        "mf.customer_created_at"@[5] == 's',
        token("mf.customer_created_at"@) == Token::Column("mf.customer_created_at"@),
        all_of("mf.customer_created_at"@, Class::Name),
        "mf.is_delinquent"@.len() == 16,
        token("mf.is_delinquent"@) == Token::Column("mf.is_delinquent"@),
        all_of("mf.is_delinquent"@, Class::Name),
        "mf.lifetime_spend_cents"@.len() == 23,
        token("mf.lifetime_spend_cents"@) == Token::Column("mf.lifetime_spend_cents"@),
        all_of("mf.lifetime_spend_cents"@, Class::Name),
        "mf.successful_payments"@.len() == 22,
        "mf.successful_payments"@[5] == 'c',
        token("mf.successful_payments"@) == Token::Column("mf.successful_payments"@),
        all_of("mf.successful_payments"@, Class::Name),
        "mf.country_code"@.len() == 15,
        "mf.country_code"@[3] == 'c',
        token("mf.country_code"@) == Token::Column("mf.country_code"@),
        all_of("mf.country_code"@, Class::Name),
        "mf.currency"@.len() == 11,
        token("mf.currency"@) == Token::Column("mf.currency"@),
        all_of("mf.currency"@, Class::Name),
        "mf.email_domain"@.len() == 15,
        "mf.email_domain"@[3] == 'e',
        token("mf.email_domain"@) == Token::Column("mf.email_domain"@),
        all_of("mf.email_domain"@, Class::Name),
{
    lemma_column_has_active_subscription();
    lemma_column_subscription_status();
    lemma_column_is_trialing();
    lemma_column_is_past_due();
    lemma_column_cancels_at_period_end();
    lemma_column_active_subscription_count();
    lemma_column_product_ids();
    lemma_column_price_ids();
    lemma_column_plan_amount_cents();
    lemma_column_billing_interval();
    lemma_column_subscription_started_at();
    lemma_column_current_period_end();
    lemma_column_total_mrr_cents();
    lemma_column_is_customer();
    lemma_column_customer_created_at();
    lemma_column_is_delinquent();
    lemma_column_lifetime_spend_cents();
    lemma_column_successful_payments();
    lemma_column_country_code();
    lemma_column_currency();
    lemma_column_email_domain();
}

proof fn lemma_column_has_active_subscription()
    ensures
        "mf.has_active_subscription"@.len() == 26,
        "mf.has_active_subscription"@[3] == 'h',
        token("mf.has_active_subscription"@) == Token::Column("mf.has_active_subscription"@),
        all_of("mf.has_active_subscription"@, Class::Name),
{
    reveal_strlit("mf.has_active_subscription");
}

proof fn lemma_column_subscription_status()
    ensures
        "mf.subscription_status"@.len() == 22,
        "mf.subscription_status"@[5] == 'b',
        token("mf.subscription_status"@) == Token::Column("mf.subscription_status"@),
        all_of("mf.subscription_status"@, Class::Name),
{
    reveal_strlit("mf.subscription_status");
}

proof fn lemma_column_is_trialing()
    ensures
        "mf.is_trialing"@.len() == 14,
        "mf.is_trialing"@[6] == 't',
        token("mf.is_trialing"@) == Token::Column("mf.is_trialing"@),
        all_of("mf.is_trialing"@, Class::Name),
{
    reveal_strlit("mf.is_trialing");
}

proof fn lemma_column_is_past_due()
    ensures
        "mf.is_past_due"@.len() == 14,
        "mf.is_past_due"@[6] == 'p',
        token("mf.is_past_due"@) == Token::Column("mf.is_past_due"@),
        all_of("mf.is_past_due"@, Class::Name),
{
    reveal_strlit("mf.is_past_due");
}

proof fn lemma_column_cancels_at_period_end()
    ensures
        "mf.cancels_at_period_end"@.len() == 24,
        token("mf.cancels_at_period_end"@) == Token::Column("mf.cancels_at_period_end"@),
        all_of("mf.cancels_at_period_end"@, Class::Name),
{
    reveal_strlit("mf.cancels_at_period_end");
}

proof fn lemma_column_active_subscription_count()
    ensures
        "mf.active_subscription_count"@.len() == 28,
        token("mf.active_subscription_count"@) == Token::Column("mf.active_subscription_count"@),
        all_of("mf.active_subscription_count"@, Class::Name),
{
    reveal_strlit("mf.active_subscription_count");
}

proof fn lemma_column_product_ids()
    ensures
        "mf.product_ids"@.len() == 14,
        "mf.product_ids"@[6] == 'd',
        token("mf.product_ids"@) == Token::Column("mf.product_ids"@),
        all_of("mf.product_ids"@, Class::Name),
{
    reveal_strlit("mf.product_ids");
}

proof fn lemma_column_price_ids()
    ensures
        "mf.price_ids"@.len() == 12,
        token("mf.price_ids"@) == Token::Column("mf.price_ids"@),
        all_of("mf.price_ids"@, Class::Name),
{
    reveal_strlit("mf.price_ids");
}

proof fn lemma_column_plan_amount_cents()
    ensures
        "mf.plan_amount_cents"@.len() == 20,
        token("mf.plan_amount_cents"@) == Token::Column("mf.plan_amount_cents"@),
        all_of("mf.plan_amount_cents"@, Class::Name),
{
    reveal_strlit("mf.plan_amount_cents");
}

proof fn lemma_column_billing_interval()
    ensures
        "mf.billing_interval"@.len() == 19,
        token("mf.billing_interval"@) == Token::Column("mf.billing_interval"@),
        all_of("mf.billing_interval"@, Class::Name),
{
    reveal_strlit("mf.billing_interval");
}

proof fn lemma_column_subscription_started_at()
    ensures
        "mf.subscription_started_at"@.len() == 26,
        "mf.subscription_started_at"@[3] == 's',
        token("mf.subscription_started_at"@) == Token::Column("mf.subscription_started_at"@),
        all_of("mf.subscription_started_at"@, Class::Name),
{
    reveal_strlit("mf.subscription_started_at");
}

proof fn lemma_column_current_period_end()
    ensures
        "mf.current_period_end"@.len() == 21,
        token("mf.current_period_end"@) == Token::Column("mf.current_period_end"@),
        all_of("mf.current_period_end"@, Class::Name),
{
    reveal_strlit("mf.current_period_end");
}

proof fn lemma_column_total_mrr_cents()
    ensures
        "mf.total_mrr_cents"@.len() == 18,
        token("mf.total_mrr_cents"@) == Token::Column("mf.total_mrr_cents"@),
        all_of("mf.total_mrr_cents"@, Class::Name),
{
    reveal_strlit("mf.total_mrr_cents");
}

proof fn lemma_column_is_customer()
    ensures
        "mf.is_customer"@.len() == 14,
        "mf.is_customer"@[6] == 'c',
        token("mf.is_customer"@) == Token::Column("mf.is_customer"@),
        all_of("mf.is_customer"@, Class::Name),
{
    reveal_strlit("mf.is_customer");
}

proof fn lemma_column_customer_created_at()
    ensures
        "mf.customer_created_at"@.len() == 22,
        "mf.customer_created_at"@[5] == 's',
        token("mf.customer_created_at"@) == Token::Column("mf.customer_created_at"@),
        all_of("mf.customer_created_at"@, Class::Name),
{
    reveal_strlit("mf.customer_created_at");
}

proof fn lemma_column_is_delinquent()
    ensures
        "mf.is_delinquent"@.len() == 16,
        token("mf.is_delinquent"@) == Token::Column("mf.is_delinquent"@),
        all_of("mf.is_delinquent"@, Class::Name),
{
    reveal_strlit("mf.is_delinquent");
}

proof fn lemma_column_lifetime_spend_cents()
    ensures
        "mf.lifetime_spend_cents"@.len() == 23,
        token("mf.lifetime_spend_cents"@) == Token::Column("mf.lifetime_spend_cents"@),
        all_of("mf.lifetime_spend_cents"@, Class::Name),
{
    reveal_strlit("mf.lifetime_spend_cents");
}

proof fn lemma_column_successful_payments()
    ensures
        "mf.successful_payments"@.len() == 22,
        "mf.successful_payments"@[5] == 'c',
        token("mf.successful_payments"@) == Token::Column("mf.successful_payments"@),
        all_of("mf.successful_payments"@, Class::Name),
{
    reveal_strlit("mf.successful_payments");
}

proof fn lemma_column_country_code()
    ensures
        "mf.country_code"@.len() == 15,
        "mf.country_code"@[3] == 'c',
        token("mf.country_code"@) == Token::Column("mf.country_code"@),
        all_of("mf.country_code"@, Class::Name),
{
    reveal_strlit("mf.country_code");
}

proof fn lemma_column_currency()
    ensures
        "mf.currency"@.len() == 11,
        token("mf.currency"@) == Token::Column("mf.currency"@),
        all_of("mf.currency"@, Class::Name),
{
    reveal_strlit("mf.currency");
}

proof fn lemma_column_email_domain()
    ensures
        "mf.email_domain"@.len() == 15,
        "mf.email_domain"@[3] == 'e',
        token("mf.email_domain"@) == Token::Column("mf.email_domain"@),
        all_of("mf.email_domain"@, Class::Name),
{
    reveal_strlit("mf.email_domain");
}

// ---------------------------------------------------------------------------
// Values
// ---------------------------------------------------------------------------

/// A value of a column as a value of SQL.
spec fn as_sql(v: ColumnValue) -> SqlValue {
    match v {
        ColumnValue::Unknown => SqlValue::Null,
        ColumnValue::Bool(b) => SqlValue::Bool(b),
        ColumnValue::Int(n) => SqlValue::Int(n),
        ColumnValue::Text(s) => SqlValue::Text(s),
        ColumnValue::List(l) => SqlValue::List(l),
    }
}

spec fn parameter(i: nat) -> Seq<char> {
    seq!['$'] + decimal(i)
}

spec fn bound_at(i: nat, at: Setting) -> SqlValue {
    bound(at.params[i - 1])
}

proof fn lemma_parameter(outer: Seq<Frame>, t: Frame, i: nat, at: Setting)
    requires
        1 <= i <= at.params.len(),
    ensures
        scan(outer.push(t), parameter(i), at) == outer.push(operand(t, bound_at(i, at), at)),
        all_of(parameter(i), Class::Name),
{
    let w = parameter(i);
    lemma_decimal(i);
    assert(w.skip(1) =~= decimal(i));
    assert forall|k: int| 0 <= k < w.len() implies class(#[trigger] w[k]) == Class::Name by {
        if k > 0 {
            assert(w[k] == decimal(i)[k - 1]);
            assert(is_digit(decimal(i)[k - 1]));
        }
    }
    lemma_scan_word(outer.push(t), w, Class::Name, at);
    assert(token(w) == Token::Param(i));
    lemma_step(outer, t, Token::Param(i), at);
}

proof fn lemma_column(outer: Seq<Frame>, t: Frame, name: Seq<char>, at: Setting)
    requires
        token(name) == Token::Column(name),
        all_of(name, Class::Name),
    ensures
        scan(outer.push(t), name, at) == outer.push(operand(t, column(name, at), at)),
{
    lemma_scan_word(outer.push(t), name, Class::Name, at);
    lemma_step(outer, t, Token::Column(name), at);
}

/// A word between two spaces.
proof fn lemma_spaced(
    outer: Seq<Frame>,
    t: Frame,
    text: Seq<char>,
    w: Seq<char>,
    k: Class,
    at: Setting,
)
    requires
        k is Name || k is Sign,
        all_of(w, k),
        !(token(w) is Open) && !(token(w) is Close),
        text == seq![' '] + w + seq![' '],
    ensures
        scan(outer.push(t), text, at) == outer.push(word_read(t, token(w), at)),
{
    lemma_scan_spaced(outer.push(t), w, k, at);
    lemma_step(outer, t, token(w), at);
}

proof fn lemma_number(outer: Seq<Frame>, t: Frame, at: Setting)
    ensures
        scan(outer.push(t), seq!['8', '6', '4', '0', '0'], at) == outer.push(
            operand(t, SqlValue::Int(86400), at),
        ),
{
    let w = seq!['8', '6', '4', '0', '0'];
    lemma_scan_word(outer.push(t), w, Class::Name, at);
    let w4 = seq!['8', '6', '4', '0'];
    let w3 = seq!['8', '6', '4'];
    let w2 = seq!['8', '6'];
    let w1 = seq!['8'];
    assert(w.drop_last() =~= w4);
    assert(w4.drop_last() =~= w3);
    assert(w3.drop_last() =~= w2);
    assert(w2.drop_last() =~= w1);
    assert(w1.drop_last() =~= Seq::empty());
    assert(digits_value(Seq::<char>::empty()) == 0);
    assert(digits_value(w1) == 8);
    assert(digits_value(w2) == 86);
    assert(digits_value(w3) == 864);
    assert(digits_value(w4) == 8640);
    assert(digits_value(w) == 86400);
    assert(token(w) == Token::Number(86400));
    lemma_step(outer, t, Token::Number(86400), at);
}

// ---------------------------------------------------------------------------
// The expressions of days
// ---------------------------------------------------------------------------

spec fn extract_head() -> Seq<char> {
    "TRUNC"@ + seq!['('] + "EXTRACT"@ + seq!['('] + "EPOCH"@ + (seq![' '] + "FROM"@ + seq![' '])
        + seq!['(']
}

spec fn extract_tail() -> Seq<char> {
    seq![')'] + seq![')'] + (seq![' '] + seq!['/'] + seq![' ']) + seq!['8', '6', '4', '0', '0']
        + seq![')']
}

spec fn now_text() -> Seq<char> {
    "now"@ + seq!['('] + seq![')']
}

spec fn minus_text() -> Seq<char> {
    seq![' '] + seq!['-'] + seq![' ']
}

/// What stands around the days: the frames of `TRUNC`, `EXTRACT` and a bracket.
spec fn within_extract(outer: Seq<Frame>, t: Frame) -> Seq<Frame> {
    outer.push(t).push(opened(Call::Trunc)).push(Frame { epoch: true, ..opened(Call::Extract) })
}

proof fn lemma_extract_head(outer: Seq<Frame>, t: Frame, at: Setting)
    requires
        t.calling is Plain,
    ensures
        scan(outer.push(t), extract_head(), at) == within_extract(outer, t).push(
            opened(Call::Plain),
        ),
{
    lemma_keywords();
    let f0 = outer.push(t);
    let p1 = "TRUNC"@;
    let p2 = p1 + seq!['('];
    let p3 = p2 + "EXTRACT"@;
    let p4 = p3 + seq!['('];
    let p5 = p4 + "EPOCH"@;
    let from = seq![' '] + "FROM"@ + seq![' '];
    let p6 = p5 + from;
    lemma_scan_word(f0, p1, Class::Name, at);
    lemma_step(outer, t, Token::Function(Call::Trunc), at);
    let t1 = Frame { calling: Call::Trunc, ..t };
    lemma_scan_cat(f0, p1, seq!['('], at);
    lemma_open(outer, t1, at);
    assert(Frame { calling: Call::Plain, ..t1 } == t);
    let o2 = outer.push(t);
    let u = opened(Call::Trunc);
    assert(scan(f0, p2, at) == o2.push(u));
    lemma_scan_cat(f0, p2, "EXTRACT"@, at);
    lemma_scan_word(o2.push(u), "EXTRACT"@, Class::Name, at);
    lemma_step(o2, u, Token::Function(Call::Extract), at);
    let u1 = Frame { calling: Call::Extract, ..u };
    lemma_scan_cat(f0, p3, seq!['('], at);
    lemma_open(o2, u1, at);
    assert(Frame { calling: Call::Plain, ..u1 } == u);
    let o3 = o2.push(u);
    let x = opened(Call::Extract);
    assert(scan(f0, p4, at) == o3.push(x));
    lemma_scan_cat(f0, p4, "EPOCH"@, at);
    lemma_scan_word(o3.push(x), "EPOCH"@, Class::Name, at);
    lemma_step(o3, x, Token::Epoch, at);
    let x1 = Frame { epoch: true, ..x };
    assert(scan(f0, p5, at) == o3.push(x1));
    lemma_scan_cat(f0, p5, from, at);
    lemma_spaced(o3, x1, from, "FROM"@, Class::Name, at);
    assert(word_read(x1, Token::From, at) == x1);
    lemma_scan_cat(f0, p6, seq!['('], at);
    lemma_open(o3, x1, at);
    assert(Frame { calling: Call::Plain, ..x1 } == x1);
}

proof fn lemma_now(outer: Seq<Frame>, t: Frame, at: Setting)
    requires
        t.calling is Plain,
    ensures
        scan(outer.push(t), now_text(), at) == outer.push(
            operand(t, SqlValue::Instant(at.now.instant()), at),
        ),
{
    lemma_keywords();
    let f0 = outer.push(t);
    let t1 = Frame { calling: Call::Now, ..t };
    lemma_scan_word(f0, "now"@, Class::Name, at);
    lemma_step(outer, t, Token::Function(Call::Now), at);
    lemma_scan_cat(f0, "now"@, seq!['('], at);
    lemma_open(outer, t1, at);
    assert(Frame { calling: Call::Plain, ..t1 } == t);
    lemma_scan_cat(f0, "now"@ + seq!['('], seq![')'], at);
    lemma_close(outer, t, opened(Call::Now), at);
}

proof fn lemma_minus(outer: Seq<Frame>, t: Frame, at: Setting)
    ensures
        scan(outer.push(t), minus_text(), at) == outer.push(Frame { sign: Some(Op::Minus), ..t }),
{
    lemma_signs();
    lemma_spaced(outer, t, minus_text(), seq!['-'], Class::Sign, at);
}

#[verifier::rlimit(40)]
proof fn lemma_extract_tail(outer: Seq<Frame>, t: Frame, span: SqlValue, at: Setting)
    requires
        span is Null || span is Span,
    ensures
        scan(
            within_extract(outer, t).push(with_left(opened(Call::Plain), span)),
            extract_tail(),
            at,
        ) == outer.push(
            operand(
                t,
                match span {
                    SqlValue::Span(n) => SqlValue::Int(
                        if n >= 0 {
                            n / NANOS_PER_DAY as int
                        } else {
                            -((-n) / NANOS_PER_DAY as int)
                        },
                    ),
                    _ => SqlValue::Null,
                },
                at,
            ),
        ),
{
    lemma_signs();
    let c = with_left(opened(Call::Plain), span);
    let x = Frame { epoch: true, ..opened(Call::Extract) };
    let u = opened(Call::Trunc);
    let o2 = outer.push(t);
    let o3 = o2.push(u);
    let f0 = o3.push(x).push(c);
    assert(within_extract(outer, t).push(c) == f0);
    let q1 = seq![')'];
    let q2 = q1 + seq![')'];
    let slash = seq![' '] + seq!['/'] + seq![' '];
    let q3 = q2 + slash;
    let q4 = q3 + seq!['8', '6', '4', '0', '0'];
    lemma_close(o3, x, c, at);
    let x1 = operand(x, span, at);
    assert(called(c, at) == span);
    lemma_scan_cat(f0, q1, seq![')'], at);
    lemma_close(o2, u, x1, at);
    let secs = called(x1, at);
    let u1 = operand(u, secs, at);
    assert(scan(f0, q2, at) == o2.push(u1));
    lemma_scan_cat(f0, q2, slash, at);
    lemma_spaced(o2, u1, slash, seq!['/'], Class::Sign, at);
    let u2 = Frame { sign: Some(Op::Over), ..u1 };
    assert(scan(f0, q3, at) == o2.push(u2));
    lemma_scan_cat(f0, q3, seq!['8', '6', '4', '0', '0'], at);
    lemma_number(o2, u2, at);
    let u3 = operand(u2, SqlValue::Int(86400), at);
    assert(scan(f0, q4, at) == o2.push(u3));
    lemma_scan_cat(f0, q4, seq![')'], at);
    lemma_close(outer, t, u3, at);
    assert(1_000_000_000 * 86400 == NANOS_PER_DAY as int);
}

/// An age: from the column until now.
proof fn lemma_age(outer: Seq<Frame>, t: Frame, name: Seq<char>, since: Option<Timestamp>, at: Setting)
    requires
        t.calling is Plain,
        token(name) == Token::Column(name),
        all_of(name, Class::Name),
        column(name, at) == crate::services::sql_text::time_value(since),
    ensures
        scan(
            outer.push(t),
            extract_head() + now_text() + minus_text() + name + extract_tail(),
            at,
        ) == outer.push(
            operand(
                t,
                match since {
                    Some(s) => SqlValue::Int(days_between(s, at.now)),
                    None => SqlValue::Null,
                },
                at,
            ),
        ),
{
    let f0 = outer.push(t);
    let o = within_extract(outer, t);
    let c = opened(Call::Plain);
    let h = extract_head();
    lemma_extract_head(outer, t, at);
    lemma_scan_cat(f0, h, now_text(), at);
    lemma_now(o, c, at);
    let c1 = operand(c, SqlValue::Instant(at.now.instant()), at);
    let p2 = h + now_text();
    assert(now_text().last() == ')');
    assert(p2.last() == ')');
    lemma_scan_cat(f0, p2, minus_text(), at);
    lemma_minus(o, c1, at);
    let c2 = Frame { sign: Some(Op::Minus), ..c1 };
    let p3 = p2 + minus_text();
    assert(minus_text().last() == ' ');
    assert(p3.last() == ' ');
    lemma_scan_cat(f0, p3, name, at);
    lemma_column(o, c2, name, at);
    let c3 = operand(c2, column(name, at), at);
    let p4 = p3 + name;
    assert(extract_tail()[0] == ')');
    lemma_scan_cat(f0, p4, extract_tail(), at);
    let span = c3.left->0;
    assert(c3 == with_left(c, span));
    lemma_extract_tail(outer, t, span, at);
}

/// What is ahead: from now until the column.
proof fn lemma_ahead(
    outer: Seq<Frame>,
    t: Frame,
    name: Seq<char>,
    until: Option<Timestamp>,
    at: Setting,
)
    requires
        t.calling is Plain,
        token(name) == Token::Column(name),
        all_of(name, Class::Name),
        column(name, at) == crate::services::sql_text::time_value(until),
    ensures
        scan(
            outer.push(t),
            extract_head() + name + minus_text() + now_text() + extract_tail(),
            at,
        ) == outer.push(
            operand(
                t,
                match until {
                    Some(s) => SqlValue::Int(days_between(at.now, s)),
                    None => SqlValue::Null,
                },
                at,
            ),
        ),
{
    let f0 = outer.push(t);
    let o = within_extract(outer, t);
    let c = opened(Call::Plain);
    let h = extract_head();
    lemma_extract_head(outer, t, at);
    assert(h.last() == '(');
    lemma_scan_cat(f0, h, name, at);
    lemma_column(o, c, name, at);
    let c1 = operand(c, column(name, at), at);
    let p2 = h + name;
    assert(minus_text()[0] == ' ');
    lemma_scan_cat(f0, p2, minus_text(), at);
    lemma_minus(o, c1, at);
    let c2 = Frame { sign: Some(Op::Minus), ..c1 };
    let p3 = p2 + minus_text();
    assert(minus_text().last() == ' ');
    assert(p3.last() == ' ');
    lemma_scan_cat(f0, p3, now_text(), at);
    lemma_now(o, c2, at);
    let c3 = operand(c2, SqlValue::Instant(at.now.instant()), at);
    let p4 = p3 + now_text();
    assert(extract_tail()[0] == ')');
    lemma_scan_cat(f0, p4, extract_tail(), at);
    let span = c3.left->0;
    assert(c3 == with_left(c, span));
    lemma_extract_tail(outer, t, span, at);
}

proof fn lemma_days_texts()
    ensures
        target_sql(ConditionTarget::SubscriptionAgeDays) == extract_head() + now_text()
            + minus_text() + "mf.subscription_started_at"@ + extract_tail(),
        target_sql(ConditionTarget::CustomerAgeDays) == extract_head() + now_text() + minus_text()
            + "mf.customer_created_at"@ + extract_tail(),
        target_sql(ConditionTarget::DaysUntilRenewal) == extract_head() + "mf.current_period_end"@
            + minus_text() + now_text() + extract_tail(),
{
    lemma_started_text();
    lemma_created_text();
    lemma_renewal_text();
}

proof fn lemma_started_text()
    ensures
        target_sql(ConditionTarget::SubscriptionAgeDays) == extract_head() + now_text()
            + minus_text() + "mf.subscription_started_at"@ + extract_tail(),
{
    reveal_strlit("TRUNC");
    reveal_strlit("EXTRACT");
    reveal_strlit("EPOCH");
    reveal_strlit("FROM");
    reveal_strlit("now");
    reveal_strlit("mf.subscription_started_at");
    reveal_strlit("TRUNC(EXTRACT(EPOCH FROM (now() - mf.subscription_started_at)) / 86400)");
    assert(target_sql(ConditionTarget::SubscriptionAgeDays) =~= extract_head() + now_text()
        + minus_text() + "mf.subscription_started_at"@ + extract_tail());
}

proof fn lemma_created_text()
    ensures
        target_sql(ConditionTarget::CustomerAgeDays) == extract_head() + now_text() + minus_text()
            + "mf.customer_created_at"@ + extract_tail(),
{
    reveal_strlit("TRUNC");
    reveal_strlit("EXTRACT");
    reveal_strlit("EPOCH");
    reveal_strlit("FROM");
    reveal_strlit("now");
    reveal_strlit("mf.customer_created_at");
    reveal_strlit("TRUNC(EXTRACT(EPOCH FROM (now() - mf.customer_created_at)) / 86400)");
    assert(target_sql(ConditionTarget::CustomerAgeDays) =~= extract_head() + now_text()
        + minus_text() + "mf.customer_created_at"@ + extract_tail());
}

proof fn lemma_renewal_text()
    ensures
        target_sql(ConditionTarget::DaysUntilRenewal) == extract_head() + "mf.current_period_end"@
            + minus_text() + now_text() + extract_tail(),
{
    reveal_strlit("TRUNC");
    reveal_strlit("EXTRACT");
    reveal_strlit("EPOCH");
    reveal_strlit("FROM");
    reveal_strlit("now");
    reveal_strlit("mf.current_period_end");
    reveal_strlit("TRUNC(EXTRACT(EPOCH FROM (mf.current_period_end - now())) / 86400)");
    assert(target_sql(ConditionTarget::DaysUntilRenewal) =~= extract_head()
        + "mf.current_period_end"@ + minus_text() + now_text() + extract_tail());
}

/// The columns beside the facts have names of their own.
proof fn lemma_own_columns()
    ensures
        "mf.account_ref"@.len() == 14,
        "mf.account_ref"@[6] == 'o',
        token("mf.account_ref"@) == Token::Column("mf.account_ref"@),
        all_of("mf.account_ref"@, Class::Name),
        "mf.discord_id"@.len() == 13,
        token("mf.discord_id"@) == Token::Column("mf.discord_id"@),
        all_of("mf.discord_id"@, Class::Name),
{
    reveal_strlit("mf.account_ref");
    reveal_strlit("mf.discord_id");
}

/// The expression of a target is read as the target's value.
proof fn lemma_target(outer: Seq<Frame>, t: Frame, target: ConditionTarget, at: Setting)
    requires
        t.calling is Plain,
    ensures
        scan(outer.push(t), target_sql(target), at) == outer.push(
            operand(t, as_sql(target_value(target, at.row, at.now)), at),
        ),
        target_sql(target).len() > 0,
{
    lemma_columns();
    lemma_own_columns();
    match target {
        ConditionTarget::SubscriptionAgeDays => {
            lemma_days_texts();
            lemma_age(
                outer,
                t,
                "mf.subscription_started_at"@,
                at.row.subscription_started_at,
                at,
            );
        },
        ConditionTarget::CustomerAgeDays => {
            lemma_days_texts();
            lemma_age(outer, t, "mf.customer_created_at"@, at.row.customer_created_at, at);
        },
        ConditionTarget::DaysUntilRenewal => {
            lemma_days_texts();
            lemma_ahead(outer, t, "mf.current_period_end"@, at.row.current_period_end, at);
        },
        _ => {
            lemma_column(outer, t, target_sql(target), at);
        },
    }
}

// ---------------------------------------------------------------------------
// The texts of the tests
// ---------------------------------------------------------------------------

proof fn lemma_word_like()
    ensures
        token("LIKE"@) == Token::Sign(Op::Like),
        all_of("LIKE"@, Class::Name),
{
    lemma_keywords();
}

proof fn lemma_word_any()
    ensures
        token("ANY"@) == Token::Function(Call::Any),
        all_of("ANY"@, Class::Name),
{
    lemma_keywords();
}

proof fn lemma_word_all()
    ensures
        token("ALL"@) == Token::Function(Call::All),
        all_of("ALL"@, Class::Name),
{
    lemma_keywords();
}

proof fn lemma_word_not()
    ensures
        token("NOT"@) == Token::Not,
        all_of("NOT"@, Class::Name),
{
    lemma_keywords();
}

/// A sign is read as the operation that it stands for.
proof fn lemma_sign_word(w: Seq<char>, op: Op)
    requires
        (w == seq!['='] && op is Equal) || (w == seq!['<', '>'] && op is Unequal) || (w == seq![
            '~',
        ] && op is Match) || (w == seq!['&', '&'] && op is Overlap),
    ensures
        token(w) == Token::Sign(op),
        all_of(w, Class::Sign),
{
    lemma_signs();
}

spec fn spaced(w: Seq<char>) -> Seq<char> {
    seq![' '] + w + seq![' ']
}

/// A text that is read as the left side of a comparison.
spec fn reads_as(outer: Seq<Frame>, t: Frame, text: Seq<char>, v: SqlValue, at: Setting) -> bool {
    text.len() > 0 && scan(outer.push(t), text, at) == outer.push(with_left(t, v))
}

/// A text in brackets is read as what it is read as without them.
proof fn lemma_enclosed(outer: Seq<Frame>, t: Frame, text: Seq<char>, v: SqlValue, at: Setting)
    requires
        t.calling is Plain,
        reads_as(outer.push(t), opened(Call::Plain), text, v, at),
    ensures
        scan(outer.push(t), seq!['('] + text + seq![')'], at) == outer.push(operand(t, v, at)),
{
    let f0 = outer.push(t);
    lemma_open(outer, t, at);
    assert(Frame { calling: Call::Plain, ..t } == t);
    lemma_scan_cat(f0, seq!['('], text, at);
    lemma_scan_cat(f0, seq!['('] + text, seq![')'], at);
    lemma_close(outer, t, with_left(opened(Call::Plain), v), at);
    assert(closed(with_left(opened(Call::Plain), v)) == v);
}

/// A comparison: the left side, a sign between spaces, and the right side.
proof fn lemma_comparison(
    outer: Seq<Frame>,
    t: Frame,
    left: Seq<char>,
    v: SqlValue,
    between: Seq<char>,
    op: Op,
    i: nat,
    at: Setting,
)
    requires
        ready(t),
        reads_as(outer, t, left, v, at),
        between.len() > 0 && between[0] == ' ' && between.last() == ' ',
        scan(outer.push(with_left(t, v)), between, at) == outer.push(
            Frame { sign: Some(op), ..with_left(t, v) },
        ),
        1 <= i <= at.params.len(),
    ensures
        reads_as(
            outer,
            t,
            left + between + parameter(i),
            applied(op, v, bound_at(i, at), at),
            at,
        ),
{
    let f0 = outer.push(t);
    lemma_scan_cat(f0, left, between, at);
    assert((left + between).last() == ' ');
    lemma_scan_cat(f0, left + between, parameter(i), at);
    let t2 = Frame { sign: Some(op), ..with_left(t, v) };
    lemma_parameter(outer, t2, i, at);
    assert(operand(t2, bound_at(i, at), at) == with_left(t, applied(op, v, bound_at(i, at), at)));
}

/// A sign between spaces.
proof fn lemma_sign_between(
    outer: Seq<Frame>,
    t: Frame,
    text: Seq<char>,
    w: Seq<char>,
    k: Class,
    op: Op,
    at: Setting,
)
    requires
        k is Name || k is Sign,
        all_of(w, k),
        token(w) == Token::Sign(op),
        text == seq![' '] + w + seq![' '],
    ensures
        scan(outer.push(t), text, at) == outer.push(Frame { sign: Some(op), ..t }),
        text.len() > 0 && text[0] == ' ' && text.last() == ' ',
{
    lemma_spaced(outer, t, text, w, k, at);
}

/// `IS DISTINCT FROM` between spaces.
spec fn distinct_text() -> Seq<char> {
    seq![' '] + "IS"@ + seq![' '] + "DISTINCT"@ + seq![' '] + "FROM"@ + seq![' ']
}

proof fn lemma_distinct(outer: Seq<Frame>, t: Frame, at: Setting)
    requires
        t.is is Nothing,
    ensures
        scan(outer.push(t), distinct_text(), at) == outer.push(
            Frame { sign: Some(Op::Distinct), ..t },
        ),
        distinct_text().len() > 0 && distinct_text()[0] == ' ' && distinct_text().last() == ' ',
{
    lemma_keywords();
    let f0 = outer.push(t);
    let a = seq![' '] + "IS"@ + seq![' '];
    let b = "DISTINCT"@ + seq![' '];
    let c = "FROM"@ + seq![' '];
    assert(distinct_text() =~= a + b + c);
    lemma_spaced(outer, t, a, "IS"@, Class::Name, at);
    let t1 = Frame { is: Tense::Is, ..t };
    assert(a.last() == ' ');
    lemma_scan_cat(f0, a, b, at);
    lemma_word_space(outer, t1, "DISTINCT"@, at);
    let t2 = Frame { is: Tense::IsDistinct, ..t };
    assert((a + b).last() == ' ');
    lemma_scan_cat(f0, a + b, c, at);
    lemma_word_space(outer, t2, "FROM"@, at);
    assert(word_read(t2, Token::From, at) == Frame { sign: Some(Op::Distinct), ..t });
}

/// A word and a space behind it.
proof fn lemma_word_space(outer: Seq<Frame>, t: Frame, w: Seq<char>, at: Setting)
    requires
        all_of(w, Class::Name),
        !(token(w) is Open) && !(token(w) is Close),
    ensures
        scan(outer.push(t), w + seq![' '], at) == outer.push(word_read(t, token(w), at)),
{
    lemma_scan_cat(outer.push(t), w, seq![' '], at);
    lemma_scan_word(outer.push(t), w, Class::Name, at);
    lemma_step(outer, t, token(w), at);
    lemma_scan_space(outer.push(word_read(t, token(w), at)), at);
}

/// `IS NOT NULL` behind a space.
spec fn not_null_text() -> Seq<char> {
    seq![' '] + "IS"@ + seq![' '] + "NOT"@ + seq![' '] + "NULL"@
}

proof fn lemma_not_null(outer: Seq<Frame>, t: Frame, left: Seq<char>, v: SqlValue, at: Setting)
    requires
        ready(t),
        reads_as(outer, t, left, v, at),
    ensures
        reads_as(outer, t, left + not_null_text(), SqlValue::Bool(!(v is Null)), at),
        not_null_text().len() > 0,
{
    lemma_keywords();
    let f0 = outer.push(t);
    let l = with_left(t, v);
    let a = seq![' '] + "IS"@ + seq![' '];
    let b = "NOT"@ + seq![' '];
    let c = "NULL"@;
    let text = not_null_text();
    assert(text =~= a + b + c);
    assert(text[0] == ' ');
    lemma_scan_cat(f0, left, text, at);
    lemma_spaced(outer, l, a, "IS"@, Class::Name, at);
    let t1 = Frame { is: Tense::Is, ..l };
    assert(a.last() == ' ');
    lemma_scan_cat(outer.push(l), a, b, at);
    lemma_word_space(outer, t1, "NOT"@, at);
    let t2 = Frame { is: Tense::IsNot, ..l };
    assert((a + b).last() == ' ');
    lemma_scan_cat(outer.push(l), a + b, c, at);
    lemma_scan_word(outer.push(t2), c, Class::Name, at);
    lemma_step(outer, t2, Token::Null, at);
    assert(word_read(t2, Token::Null, at) == with_left(t, SqlValue::Bool(!(v is Null))));
}

spec fn cast_text() -> Seq<char> {
    seq![':', ':'] + "text"@ + seq!['['] + seq![']']
}

/// A cast to a list of texts changes nothing.
proof fn lemma_cast(outer: Seq<Frame>, t: Frame, left: Seq<char>, v: SqlValue, at: Setting)
    requires
        all_of(left, Class::Name) || left.last() == ' ' || left.last() == ')',
        reads_as(outer, t, left, v, at),
    ensures
        reads_as(outer, t, left + cast_text(), v, at),
{
    let f0 = outer.push(t);
    let l = with_left(t, v);
    let text = cast_text();
    assert(text[0] == ':');
    assert(left.last() == left[left.len() - 1]);
    lemma_scan_cat(f0, left, text, at);
    lemma_casts(outer, l, at);
}

/// A comparison with `ANY` or `ALL` of a list.
proof fn lemma_quantified(
    outer: Seq<Frame>,
    t: Frame,
    left: Seq<char>,
    v: SqlValue,
    w: Seq<char>,
    op: Op,
    name: Seq<char>,
    call: Call,
    list: Seq<char>,
    l: SqlValue,
    at: Setting,
)
    requires
        ready(t),
        reads_as(outer, t, left, v, at),
        all_of(w, Class::Sign),
        token(w) == Token::Sign(op),
        all_of(name, Class::Name),
        token(name) == Token::Function(call),
        forall|o: Seq<Frame>| #[trigger] reads_as(o, opened(call), list, l, at),
    ensures
        reads_as(
            outer,
            t,
            left + spaced(w) + name + seq!['('] + list + seq![')'],
            applied(op, v, called(with_left(opened(call), l), at), at),
            at,
        ),
{
    let f0 = outer.push(t);
    let lt = with_left(t, v);
    let between = seq![' '] + w + seq![' '];
    lemma_sign_between(outer, lt, between, w, Class::Sign, op, at);
    lemma_scan_cat(f0, left, between, at);
    let t1 = Frame { sign: Some(op), ..lt };
    let p1 = left + between;
    assert(p1.last() == ' ');
    lemma_scan_cat(f0, p1, name, at);
    lemma_scan_word(outer.push(t1), name, Class::Name, at);
    lemma_step(outer, t1, Token::Function(call), at);
    let t2 = Frame { calling: call, ..t1 };
    let p2 = p1 + name;
    lemma_scan_cat(f0, p2, seq!['('], at);
    lemma_open(outer, t2, at);
    assert(Frame { calling: Call::Plain, ..t2 } == t1);
    let p3 = p2 + seq!['('];
    lemma_scan_cat(f0, p3, list, at);
    assert(reads_as(outer.push(t1), opened(call), list, l, at));
    let p4 = p3 + list;
    lemma_scan_cat(f0, p4, seq![')'], at);
    let u = with_left(opened(call), l);
    lemma_close(outer, t1, u, at);
    assert(operand(t1, called(u, at), at) == with_left(t, applied(op, v, called(u, at), at)));
}

spec fn and_text() -> Seq<char> {
    seq![' '] + "AND"@ + seq![' ']
}

spec fn or_text() -> Seq<char> {
    seq![' '] + "OR"@ + seq![' ']
}

/// Two conditions in brackets, with `AND` between them.
proof fn lemma_both(
    outer: Seq<Frame>,
    t: Frame,
    a: Seq<char>,
    x: SqlValue,
    b: Seq<char>,
    y: SqlValue,
    at: Setting,
)
    requires
        ready(t),
        reads_as(outer.push(t), opened(Call::Plain), a, x, at),
        reads_as(
            outer.push(t),
            Frame { both: Some(x), ..opened(Call::Plain) },
            b,
            y,
            at,
        ),
    ensures
        reads_as(
            outer,
            t,
            seq!['('] + a + and_text() + b + seq![')'],
            and_value(x, y),
            at,
        ),
{
    lemma_keywords();
    let f0 = outer.push(t);
    let u = opened(Call::Plain);
    lemma_open(outer, t, at);
    assert(Frame { calling: Call::Plain, ..t } == t);
    lemma_scan_cat(f0, seq!['('], a, at);
    let p1 = seq!['('] + a;
    assert(and_text()[0] == ' ' && and_text().last() == ' ');
    lemma_scan_cat(f0, p1, and_text(), at);
    lemma_spaced(outer.push(t), with_left(u, x), and_text(), "AND"@, Class::Name, at);
    let u1 = Frame { both: Some(x), ..u };
    assert(word_read(with_left(u, x), Token::And, at) == u1);
    let p2 = p1 + and_text();
    assert(p2.last() == ' ');
    lemma_scan_cat(f0, p2, b, at);
    let p3 = p2 + b;
    lemma_scan_cat(f0, p3, seq![')'], at);
    lemma_close(outer, t, with_left(u1, y), at);
    assert(called(with_left(u1, y), at) == and_value(x, y));
    assert(operand(t, and_value(x, y), at) == with_left(t, and_value(x, y)));
}

// ---------------------------------------------------------------------------
// How the tests are written
// ---------------------------------------------------------------------------

proof fn lemma_equals_text(e: Seq<char>, test: ColumnTest, i: nat)
    requires
        test is Equals,
    ensures
        test_sql(e, test, i) == e + spaced(seq!['=']) + parameter(i),
{
    reveal_strlit(" = $");
    assert(test_sql(e, test, i) =~= e + spaced(seq!['=']) + parameter(i));
}

proof fn lemma_differs_text(e: Seq<char>, test: ColumnTest, i: nat)
    requires
        test is Differs,
    ensures
        test_sql(e, test, i) == e + spaced(seq!['<', '>']) + parameter(i),
{
    reveal_strlit(" <> $");
    assert(test_sql(e, test, i) =~= e + spaced(seq!['<', '>']) + parameter(i));
}

proof fn lemma_distinct_text(e: Seq<char>, test: ColumnTest, i: nat)
    requires
        test is DistinctFrom,
    ensures
        test_sql(e, test, i) == e + distinct_text() + parameter(i),
{
    reveal_strlit(" IS DISTINCT FROM $");
    reveal_strlit("IS");
    reveal_strlit("DISTINCT");
    reveal_strlit("FROM");
    assert(test_sql(e, test, i) =~= e + distinct_text() + parameter(i));
}

proof fn lemma_like_text(e: Seq<char>, test: ColumnTest, i: nat)
    requires
        test is Like,
    ensures
        test_sql(e, test, i) == e + spaced("LIKE"@) + parameter(i),
{
    reveal_strlit(" LIKE $");
    reveal_strlit("LIKE");
    assert(test_sql(e, test, i) =~= e + spaced("LIKE"@) + parameter(i));
}

proof fn lemma_matches_text(e: Seq<char>, test: ColumnTest, i: nat)
    requires
        test is Matches,
    ensures
        test_sql(e, test, i) == e + spaced(seq!['~']) + parameter(i),
{
    reveal_strlit(" ~ $");
    assert(test_sql(e, test, i) =~= e + spaced(seq!['~']) + parameter(i));
}

proof fn lemma_known_text(e: Seq<char>, i: nat)
    ensures
        test_sql(e, ColumnTest::Known, i) == e + not_null_text(),
{
    reveal_strlit(" IS NOT NULL");
    reveal_strlit("IS");
    reveal_strlit("NOT");
    reveal_strlit("NULL");
    assert(test_sql(e, ColumnTest::Known, i) =~= e + not_null_text());
}

proof fn lemma_any_text(e: Seq<char>, test: ColumnTest, i: nat)
    requires
        test is AnyOf,
    ensures
        test_sql(e, test, i) == e + spaced(seq!['=']) + "ANY"@ + seq!['('] + (parameter(i)
            + cast_text()) + seq![')'],
{
    reveal_strlit(" = ANY($");
    reveal_strlit("::text[])");
    reveal_strlit("ANY");
    reveal_strlit("text");
    assert(test_sql(e, test, i) =~= e + spaced(seq!['=']) + "ANY"@ + seq!['('] + (parameter(i)
        + cast_text()) + seq![')']);
}

proof fn lemma_none_text(e: Seq<char>, test: ColumnTest, i: nat)
    requires
        test is NoneOf,
    ensures
        test_sql(e, test, i) == seq!['('] + (e + not_null_text()) + and_text() + (e + spaced(
            seq!['<', '>'],
        ) + "ALL"@ + seq!['('] + (parameter(i) + cast_text()) + seq![')']) + seq![')'],
{
    reveal_strlit("(");
    reveal_strlit(" IS NOT NULL AND ");
    reveal_strlit(" <> ALL($");
    reveal_strlit("::text[]))");
    reveal_strlit("ALL");
    reveal_strlit("AND");
    reveal_strlit("text");
    reveal_strlit("IS");
    reveal_strlit("NOT");
    reveal_strlit("NULL");
    let head = "("@ + e + " IS NOT NULL AND "@;
    let head_parts = seq!['('] + (e + not_null_text()) + and_text();
    assert(head =~= head_parts);
    let mid = " <> ALL($"@ + decimal(i) + "::text[]))"@;
    let mid_parts = spaced(seq!['<', '>']) + "ALL"@ + seq!['('] + (parameter(i) + cast_text())
        + seq![')'] + seq![')'];
    assert(mid =~= mid_parts);
    assert(test_sql(e, test, i) =~= head + e + mid);
    assert(head_parts + e + mid_parts =~= head_parts + (e + spaced(seq!['<', '>']) + "ALL"@ + seq![
        '(',
    ] + (parameter(i) + cast_text()) + seq![')']) + seq![')']);
}

proof fn lemma_has_text(e: Seq<char>, test: ColumnTest, i: nat)
    requires
        test is Has,
    ensures
        test_sql(e, test, i) == parameter(i) + spaced(seq!['=']) + "ANY"@ + seq!['('] + e + seq![
            ')',
        ],
{
    reveal_strlit("$");
    reveal_strlit(" = ANY(");
    reveal_strlit(")");
    reveal_strlit("ANY");
    assert(test_sql(e, test, i) =~= parameter(i) + spaced(seq!['=']) + "ANY"@ + seq!['('] + e
        + seq![')']);
}

proof fn lemma_overlaps_text(e: Seq<char>, test: ColumnTest, i: nat)
    requires
        test is Overlaps,
    ensures
        test_sql(e, test, i) == seq!['('] + (e + spaced(seq!['&', '&']) + parameter(i)
            + cast_text()) + seq![')'],
{
    reveal_strlit("(");
    reveal_strlit(" && $");
    reveal_strlit("::text[])");
    reveal_strlit("text");
    assert(test_sql(e, test, i) =~= seq!['('] + (e + spaced(seq!['&', '&']) + parameter(i)
        + cast_text()) + seq![')']);
}

proof fn lemma_disjoint_text(e: Seq<char>, test: ColumnTest, i: nat)
    requires
        test is Disjoint,
    ensures
        test_sql(e, test, i) == seq!['('] + ("NOT"@ + seq![' ']) + (seq!['('] + (e + spaced(
            seq!['&', '&'],
        ) + parameter(i) + cast_text()) + seq![')']) + seq![')'],
{
    reveal_strlit("(NOT (");
    reveal_strlit(" && $");
    reveal_strlit("::text[]))");
    reveal_strlit("NOT");
    reveal_strlit("text");
    assert(test_sql(e, test, i) =~= seq!['('] + ("NOT"@ + seq![' ']) + (seq!['('] + (e + spaced(
        seq!['&', '&'],
    ) + parameter(i) + cast_text()) + seq![')']) + seq![')']);
}

// ---------------------------------------------------------------------------
// The tests
// ---------------------------------------------------------------------------

/// The test is true of the value. What a regular expression matches is given.
pub open spec fn test_meets(
    t: ColumnTest,
    v: ColumnValue,
    matches: spec_fn(Seq<char>, Seq<char>) -> bool,
) -> bool {
    match t {
        ColumnTest::Matches(p) => v matches ColumnValue::Text(a) && matches(a, p),
        _ => test_holds(t, v),
    }
}

/// The parameters from the given number on have the values.
pub open spec fn bound_from(params: Seq<BindModel>, i: nat, values: Seq<BindModel>) -> bool {
    &&& 1 <= i
    &&& i - 1 + values.len() <= params.len()
    &&& forall|k: int| 0 <= k < values.len() ==> params[i - 1 + k] == #[trigger] values[k]
}

proof fn lemma_left(outer: Seq<Frame>, t: Frame, target: ConditionTarget, at: Setting)
    requires
        ready(t),
    ensures
        reads_as(outer, t, target_sql(target), as_sql(target_value(target, at.row, at.now)), at),
{
    lemma_target(outer, t, target, at);
}

/// The target in brackets.
proof fn lemma_left_enclosed(outer: Seq<Frame>, t: Frame, target: ConditionTarget, at: Setting)
    requires
        ready(t),
    ensures
        reads_as(
            outer,
            t,
            seq!['('] + target_sql(target) + seq![')'],
            as_sql(target_value(target, at.row, at.now)),
            at,
        ),
{
    lemma_left(outer.push(t), opened(Call::Plain), target, at);
    lemma_enclosed(
        outer,
        t,
        target_sql(target),
        as_sql(target_value(target, at.row, at.now)),
        at,
    );
}

/// `FALSE` and `TRUE`.
proof fn lemma_constant(outer: Seq<Frame>, t: Frame, at: Setting)
    requires
        ready(t),
    ensures
        reads_as(outer, t, "FALSE"@, SqlValue::Bool(false), at),
        reads_as(outer, t, "TRUE"@, SqlValue::Bool(true), at),
{
    lemma_keywords();
    lemma_scan_word(outer.push(t), "FALSE"@, Class::Name, at);
    lemma_step(outer, t, Token::Truth(false), at);
    lemma_scan_word(outer.push(t), "TRUE"@, Class::Name, at);
    lemma_step(outer, t, Token::Truth(true), at);
}

/// A comparison of the target with one parameter, without brackets.
proof fn lemma_plain(
    outer: Seq<Frame>,
    t: Frame,
    target: ConditionTarget,
    w: Seq<char>,
    k: Class,
    op: Op,
    i: nat,
    at: Setting,
)
    requires
        ready(t),
        k is Name || k is Sign,
        all_of(w, k),
        token(w) == Token::Sign(op),
        1 <= i <= at.params.len(),
    ensures
        reads_as(
            outer,
            t,
            target_sql(target) + spaced(w) + parameter(i),
            applied(
                op,
                as_sql(target_value(target, at.row, at.now)),
                bound_at(i, at),
                at,
            ),
            at,
        ),
{
    let v = as_sql(target_value(target, at.row, at.now));
    lemma_left(outer, t, target, at);
    lemma_sign_between(outer, with_left(t, v), spaced(w), w, k, op, at);
    lemma_comparison(outer, t, target_sql(target), v, spaced(w), op, i, at);
}

/// The tests that compare the target with one parameter, without brackets.
proof fn lemma_plain_test(
    outer: Seq<Frame>,
    t: Frame,
    target: ConditionTarget,
    test: ColumnTest,
    i: nat,
    at: Setting,
) -> (b: SqlValue)
    requires
        ready(t),
        bound_from(at.params, i, test_binds(test)),
        test is Equals || test is Differs || test is DistinctFrom || test is Like
            || test is Matches,
    ensures
        reads_as(outer, t, test_sql(target_sql(target), test, i), b, at),
        is_true(b) == test_meets(test, target_value(target, at.row, at.now), at.matches),
{
    let e = target_sql(target);
    let value = target_value(target, at.row, at.now);
    let v = as_sql(value);
    assert(at.params[i - 1 + 0] == test_binds(test)[0]);
    match test {
        ColumnTest::Equals(_) => {
            lemma_equals_text(e, test, i);
            lemma_sign_word(seq!['='], Op::Equal);
            lemma_plain(outer, t, target, seq!['='], Class::Sign, Op::Equal, i, at);
            lemma_plain_value(test, value, Op::Equal, i, at);
            applied(Op::Equal, v, bound_at(i, at), at)
        },
        ColumnTest::Differs(_) => {
            lemma_differs_text(e, test, i);
            lemma_sign_word(seq!['<', '>'], Op::Unequal);
            lemma_plain(outer, t, target, seq!['<', '>'], Class::Sign, Op::Unequal, i, at);
            lemma_plain_value(test, value, Op::Unequal, i, at);
            applied(Op::Unequal, v, bound_at(i, at), at)
        },
        ColumnTest::DistinctFrom(_) => {
            lemma_distinct_text(e, test, i);
            lemma_left(outer, t, target, at);
            lemma_distinct(outer, with_left(t, v), at);
            lemma_comparison(outer, t, e, v, distinct_text(), Op::Distinct, i, at);
            lemma_plain_value(test, value, Op::Distinct, i, at);
            applied(Op::Distinct, v, bound_at(i, at), at)
        },
        ColumnTest::Like(_) => {
            lemma_like_text(e, test, i);
            lemma_word_like();
            lemma_plain(outer, t, target, "LIKE"@, Class::Name, Op::Like, i, at);
            lemma_plain_value(test, value, Op::Like, i, at);
            applied(Op::Like, v, bound_at(i, at), at)
        },
        _ => {
            lemma_matches_text(e, test, i);
            lemma_sign_word(seq!['~'], Op::Match);
            lemma_plain(outer, t, target, seq!['~'], Class::Sign, Op::Match, i, at);
            lemma_plain_value(test, value, Op::Match, i, at);
            applied(Op::Match, v, bound_at(i, at), at)
        },
    }
}

proof fn lemma_plain_value(test: ColumnTest, value: ColumnValue, op: Op, i: nat, at: Setting)
    requires
        1 <= i <= at.params.len(),
        test_binds(test).len() == 1,
        at.params[i - 1] == test_binds(test)[0],
        (test is Equals && op is Equal) || (test is Differs && op is Unequal) || (
        test is DistinctFrom && op is Distinct) || (test is Like && op is Like) || (test is Matches
            && op is Match),
    ensures
        is_true(applied(op, as_sql(value), bound_at(i, at), at)) == test_meets(
            test,
            value,
            at.matches,
        ),
{
}

/// A comparison of the target in brackets with one parameter.
proof fn lemma_order(
    outer: Seq<Frame>,
    t: Frame,
    target: ConditionTarget,
    w: Seq<char>,
    op: Op,
    i: nat,
    at: Setting,
)
    requires
        ready(t),
        all_of(w, Class::Sign),
        token(w) == Token::Sign(op),
        1 <= i <= at.params.len(),
    ensures
        reads_as(
            outer,
            t,
            (seq!['('] + target_sql(target) + seq![')']) + (seq![' '] + w + seq![' '])
                + parameter(i),
            applied(
                op,
                as_sql(target_value(target, at.row, at.now)),
                bound_at(i, at),
                at,
            ),
            at,
        ),
{
    let v = as_sql(target_value(target, at.row, at.now));
    let between = seq![' '] + w + seq![' '];
    lemma_left_enclosed(outer, t, target, at);
    lemma_sign_between(outer, with_left(t, v), between, w, Class::Sign, op, at);
    lemma_comparison(
        outer,
        t,
        seq!['('] + target_sql(target) + seq![')'],
        v,
        between,
        op,
        i,
        at,
    );
}

/// The tests that compare numbers by their order.
proof fn lemma_order_test(
    outer: Seq<Frame>,
    t: Frame,
    target: ConditionTarget,
    test: ColumnTest,
    i: nat,
    at: Setting,
) -> (b: SqlValue)
    requires
        ready(t),
        bound_from(at.params, i, test_binds(test)),
        test is Above || test is AtLeast || test is Below || test is AtMost,
    ensures
        reads_as(outer, t, test_sql(target_sql(target), test, i), b, at),
        is_true(b) == test_meets(test, target_value(target, at.row, at.now), at.matches),
{
    let e = target_sql(target);
    let v = as_sql(target_value(target, at.row, at.now));
    lemma_signs();
    reveal_strlit("(");
    assert(at.params[i - 1 + 0] == test_binds(test)[0]);
    let text = test_sql(e, test, i);
    let left = seq!['('] + e + seq![')'];
    match test {
        ColumnTest::Above(_) => {
            reveal_strlit(") > $");
            let w = seq!['>'];
            assert(text =~= left + (seq![' '] + w + seq![' ']) + parameter(i));
            lemma_order(outer, t, target, w, Op::Greater, i, at);
            applied(Op::Greater, v, bound_at(i, at), at)
        },
        ColumnTest::AtLeast(_) => {
            reveal_strlit(") >= $");
            let w = seq!['>', '='];
            assert(text =~= left + (seq![' '] + w + seq![' ']) + parameter(i));
            lemma_order(outer, t, target, w, Op::GreaterEqual, i, at);
            applied(Op::GreaterEqual, v, bound_at(i, at), at)
        },
        ColumnTest::Below(_) => {
            reveal_strlit(") < $");
            let w = seq!['<'];
            assert(text =~= left + (seq![' '] + w + seq![' ']) + parameter(i));
            lemma_order(outer, t, target, w, Op::Less, i, at);
            applied(Op::Less, v, bound_at(i, at), at)
        },
        _ => {
            reveal_strlit(") <= $");
            let w = seq!['<', '='];
            assert(text =~= left + (seq![' '] + w + seq![' ']) + parameter(i));
            lemma_order(outer, t, target, w, Op::LessEqual, i, at);
            applied(Op::LessEqual, v, bound_at(i, at), at)
        },
    }
}

/// The test for an interval.
#[verifier::rlimit(40)]
proof fn lemma_interval_test(
    outer: Seq<Frame>,
    t: Frame,
    target: ConditionTarget,
    test: ColumnTest,
    i: nat,
    at: Setting,
) -> (b: SqlValue)
    requires
        ready(t),
        bound_from(at.params, i, test_binds(test)),
        test is Within,
    ensures
        reads_as(outer, t, test_sql(target_sql(target), test, i), b, at),
        is_true(b) == test_meets(test, target_value(target, at.row, at.now), at.matches),
{
    let e = target_sql(target);
    let v = as_sql(target_value(target, at.row, at.now));
    lemma_signs();
    reveal_strlit("((");
    reveal_strlit(")");
    reveal_strlit(") >= $");
    reveal_strlit(" AND (");
    reveal_strlit(") <= $");
    reveal_strlit("AND");
    assert(at.params[i - 1 + 0] == test_binds(test)[0]);
    assert(at.params[i - 1 + 1] == test_binds(test)[1]);
    let left = seq!['('] + e + seq![')'];
    let least = seq!['>', '='];
    let most = seq!['<', '='];
    let j: nat = i + 1;
    let a = left + (seq![' '] + least + seq![' ']) + parameter(i);
    let c = left + (seq![' '] + most + seq![' ']) + parameter(j);
    let x = applied(Op::GreaterEqual, v, bound_at(i, at), at);
    let y = applied(Op::LessEqual, v, bound_at(j, at), at);
    let u = opened(Call::Plain);
    assert(test_sql(e, test, i) =~= seq!['('] + a + and_text() + c + seq![')']);
    lemma_order(outer.push(t), u, target, least, Op::GreaterEqual, i, at);
    lemma_order(
        outer.push(t),
        Frame { both: Some(x), ..u },
        target,
        most,
        Op::LessEqual,
        j,
        at,
    );
    lemma_both(outer, t, a, x, c, y, at);
    and_value(x, y)
}

/// A parameter with a cast, in a frame of its own.
proof fn lemma_list_parameter(call: Call, i: nat, at: Setting)
    requires
        1 <= i <= at.params.len(),
    ensures
        forall|o: Seq<Frame>| #[trigger]
            reads_as(o, opened(call), parameter(i) + cast_text(), bound_at(i, at), at),
{
    assert forall|o: Seq<Frame>| #[trigger]
        reads_as(o, opened(call), parameter(i) + cast_text(), bound_at(i, at), at) by {
        lemma_parameter(o, opened(call), i, at);
        lemma_cast(o, opened(call), parameter(i), bound_at(i, at), at);
    }
}

/// The target, in a frame of its own.
proof fn lemma_list_target(call: Call, target: ConditionTarget, at: Setting)
    ensures
        forall|o: Seq<Frame>| #[trigger]
            reads_as(
                o,
                opened(call),
                target_sql(target),
                as_sql(target_value(target, at.row, at.now)),
                at,
            ),
{
    assert forall|o: Seq<Frame>| #[trigger]
        reads_as(
            o,
            opened(call),
            target_sql(target),
            as_sql(target_value(target, at.row, at.now)),
            at,
        ) by {
        lemma_left(o, opened(call), target, at);
    }
}

/// The test that the target is known.
proof fn lemma_known_test(
    outer: Seq<Frame>,
    t: Frame,
    target: ConditionTarget,
    i: nat,
    at: Setting,
) -> (b: SqlValue)
    requires
        ready(t),
    ensures
        reads_as(outer, t, test_sql(target_sql(target), ColumnTest::Known, i), b, at),
        is_true(b) == test_meets(
            ColumnTest::Known,
            target_value(target, at.row, at.now),
            at.matches,
        ),
{
    let e = target_sql(target);
    let v = as_sql(target_value(target, at.row, at.now));
    lemma_left(outer, t, target, at);
    lemma_not_null(outer, t, e, v, at);
    lemma_known_text(e, i);
    SqlValue::Bool(!(v is Null))
}

/// The test that the target is one of a list.
proof fn lemma_any_test(
    outer: Seq<Frame>,
    t: Frame,
    target: ConditionTarget,
    test: ColumnTest,
    i: nat,
    at: Setting,
) -> (b: SqlValue)
    requires
        ready(t),
        bound_from(at.params, i, test_binds(test)),
        test is AnyOf,
    ensures
        reads_as(outer, t, test_sql(target_sql(target), test, i), b, at),
        is_true(b) == test_meets(test, target_value(target, at.row, at.now), at.matches),
{
    let e = target_sql(target);
    let v = as_sql(target_value(target, at.row, at.now));
    let list = parameter(i) + cast_text();
    let l = test->AnyOf_0;
    assert(at.params[i - 1 + 0] == test_binds(test)[0]);
    lemma_word_any();
    lemma_sign_word(seq!['='], Op::Equal);
    lemma_left(outer, t, target, at);
    lemma_list_parameter(Call::Any, i, at);
    lemma_quantified(
        outer,
        t,
        e,
        v,
        seq!['='],
        Op::Equal,
        "ANY"@,
        Call::Any,
        list,
        bound_at(i, at),
        at,
    );
    lemma_any_text(e, test, i);
    assert(called(with_left(opened(Call::Any), bound_at(i, at)), at) == SqlValue::Each(l));
    applied(Op::Equal, v, SqlValue::Each(l), at)
}

/// The test that the target is known and none of a list.
proof fn lemma_none_test(
    outer: Seq<Frame>,
    t: Frame,
    target: ConditionTarget,
    test: ColumnTest,
    i: nat,
    at: Setting,
) -> (b: SqlValue)
    requires
        ready(t),
        bound_from(at.params, i, test_binds(test)),
        test is NoneOf,
    ensures
        reads_as(outer, t, test_sql(target_sql(target), test, i), b, at),
        is_true(b) == test_meets(test, target_value(target, at.row, at.now), at.matches),
{
    let e = target_sql(target);
    let v = as_sql(target_value(target, at.row, at.now));
    let list = parameter(i) + cast_text();
    let l = test->NoneOf_0;
    assert(at.params[i - 1 + 0] == test_binds(test)[0]);
    lemma_word_all();
    lemma_sign_word(seq!['<', '>'], Op::Unequal);
    let u = opened(Call::Plain);
    let x = SqlValue::Bool(!(v is Null));
    let u1 = Frame { both: Some(x), ..u };
    lemma_left(outer.push(t), u, target, at);
    lemma_not_null(outer.push(t), u, e, v, at);
    lemma_left(outer.push(t), u1, target, at);
    lemma_list_parameter(Call::All, i, at);
    lemma_quantified(
        outer.push(t),
        u1,
        e,
        v,
        seq!['<', '>'],
        Op::Unequal,
        "ALL"@,
        Call::All,
        list,
        bound_at(i, at),
        at,
    );
    let a = e + not_null_text();
    let c = e + spaced(seq!['<', '>']) + "ALL"@ + seq!['('] + list + seq![')'];
    assert(called(with_left(opened(Call::All), bound_at(i, at)), at) == SqlValue::Every(l));
    let y = applied(Op::Unequal, v, SqlValue::Every(l), at);
    lemma_both(outer, t, a, x, c, y, at);
    lemma_none_text(e, test, i);
    and_value(x, y)
}

/// The overlap of the target with a list, without brackets.
proof fn lemma_overlap(outer: Seq<Frame>, t: Frame, target: ConditionTarget, i: nat, at: Setting)
    requires
        ready(t),
        1 <= i <= at.params.len(),
    ensures
        reads_as(
            outer,
            t,
            target_sql(target) + spaced(seq!['&', '&']) + parameter(i) + cast_text(),
            applied(
                Op::Overlap,
                as_sql(target_value(target, at.row, at.now)),
                bound_at(i, at),
                at,
            ),
            at,
        ),
{
    let e = target_sql(target);
    let v = as_sql(target_value(target, at.row, at.now));
    let w = seq!['&', '&'];
    lemma_sign_word(w, Op::Overlap);
    let between = seq![' '] + w + seq![' '];
    lemma_left(outer, t, target, at);
    lemma_sign_between(outer, with_left(t, v), between, w, Class::Sign, Op::Overlap, at);
    lemma_comparison(outer, t, e, v, between, Op::Overlap, i, at);
    let left = e + between + parameter(i);
    let b = applied(Op::Overlap, v, bound_at(i, at), at);
    let f0 = outer.push(t);
    lemma_parameter(outer, t, i, at);
    assert(left.last() == parameter(i).last());
    assert(parameter(i).last() == parameter(i)[parameter(i).len() - 1]);
    assert(class(left.last()) == Class::Name);
    assert(cast_text()[0] == ':');
    lemma_scan_cat(f0, left, cast_text(), at);
    lemma_casts(outer, with_left(t, b), at);
}

proof fn lemma_casts(outer: Seq<Frame>, l: Frame, at: Setting)
    requires
        l.left is Some,
    ensures
        scan(outer.push(l), cast_text(), at) == outer.push(l),
{
    lemma_keywords();
    lemma_signs();
    let f1 = outer.push(l);
    let a = seq![':', ':'];
    let b = a + "text"@;
    let c = b + seq!['['];
    lemma_scan_word(f1, a, Class::Sign, at);
    lemma_step(outer, l, Token::Cast, at);
    reveal_strlit("text");
    assert(apart(a, "text"@));
    lemma_scan_cat(f1, a, "text"@, at);
    lemma_scan_word(f1, "text"@, Class::Name, at);
    lemma_scan_cat(f1, b, seq!['['], at);
    lemma_scan_bracket(f1, '[', at);
    assert(seq!['['][0] != seq!['('][0]);
    assert(seq!['['][0] != seq![')'][0]);
    assert(token(seq!['[']) is Cast);
    lemma_scan_cat(f1, c, seq![']'], at);
    lemma_scan_bracket(f1, ']', at);
    assert(seq![']'][0] != seq!['('][0]);
    assert(seq![']'][0] != seq![')'][0]);
    assert(token(seq![']']) is Cast);
}

/// The test that the target's list has a text.
proof fn lemma_has_test(
    outer: Seq<Frame>,
    t: Frame,
    target: ConditionTarget,
    test: ColumnTest,
    i: nat,
    at: Setting,
) -> (b: SqlValue)
    requires
        ready(t),
        bound_from(at.params, i, test_binds(test)),
        test is Has,
        target_value(target, at.row, at.now) is List,
    ensures
        reads_as(outer, t, test_sql(target_sql(target), test, i), b, at),
        is_true(b) == test_meets(test, target_value(target, at.row, at.now), at.matches),
{
    let e = target_sql(target);
    let v = as_sql(target_value(target, at.row, at.now));
    assert(at.params[i - 1 + 0] == test_binds(test)[0]);
    lemma_word_any();
    lemma_sign_word(seq!['='], Op::Equal);
    lemma_parameter(outer, t, i, at);
    assert(operand(t, bound_at(i, at), at) == with_left(t, bound_at(i, at)));
    lemma_list_target(Call::Any, target, at);
    lemma_quantified(
        outer,
        t,
        parameter(i),
        bound_at(i, at),
        seq!['='],
        Op::Equal,
        "ANY"@,
        Call::Any,
        e,
        v,
        at,
    );
    lemma_has_text(e, test, i);
    applied(Op::Equal, bound_at(i, at), called(with_left(opened(Call::Any), v), at), at)
}

/// The test that the target's list overlaps another.
proof fn lemma_overlaps_test(
    outer: Seq<Frame>,
    t: Frame,
    target: ConditionTarget,
    test: ColumnTest,
    i: nat,
    at: Setting,
) -> (b: SqlValue)
    requires
        ready(t),
        bound_from(at.params, i, test_binds(test)),
        test is Overlaps,
        target_value(target, at.row, at.now) is List,
    ensures
        reads_as(outer, t, test_sql(target_sql(target), test, i), b, at),
        is_true(b) == test_meets(test, target_value(target, at.row, at.now), at.matches),
{
    let e = target_sql(target);
    let value = target_value(target, at.row, at.now);
    let v = as_sql(value);
    let inner = e + spaced(seq!['&', '&']) + parameter(i) + cast_text();
    let both = applied(Op::Overlap, v, bound_at(i, at), at);
    assert(at.params[i - 1 + 0] == test_binds(test)[0]);
    lemma_overlap(outer.push(t), opened(Call::Plain), target, i, at);
    lemma_enclosed(outer, t, inner, both, at);
    lemma_overlaps_text(e, test, i);
    lemma_overlaps_meet(value->List_0, test->Overlaps_0);
    both
}

/// The test that the target's list does not overlap another.
proof fn lemma_disjoint_test(
    outer: Seq<Frame>,
    t: Frame,
    target: ConditionTarget,
    test: ColumnTest,
    i: nat,
    at: Setting,
) -> (b: SqlValue)
    requires
        ready(t),
        bound_from(at.params, i, test_binds(test)),
        test is Disjoint,
        target_value(target, at.row, at.now) is List,
    ensures
        reads_as(outer, t, test_sql(target_sql(target), test, i), b, at),
        is_true(b) == test_meets(test, target_value(target, at.row, at.now), at.matches),
{
    let e = target_sql(target);
    let value = target_value(target, at.row, at.now);
    let v = as_sql(value);
    let inner = e + spaced(seq!['&', '&']) + parameter(i) + cast_text();
    let both = applied(Op::Overlap, v, bound_at(i, at), at);
    assert(at.params[i - 1 + 0] == test_binds(test)[0]);
    let f0 = outer.push(t);
    let u = opened(Call::Plain);
    lemma_word_not();
    lemma_open(outer, t, at);
    assert(Frame { calling: Call::Plain, ..t } == t);
    let not = "NOT"@ + seq![' '];
    lemma_scan_cat(f0, seq!['('], not, at);
    lemma_word_space(outer.push(t), u, "NOT"@, at);
    let n = Frame { negated: true, ..u };
    let p1 = seq!['('] + not;
    let group = seq!['('] + inner + seq![')'];
    assert(p1.last() == ' ');
    lemma_scan_cat(f0, p1, group, at);
    lemma_overlap(outer.push(t).push(n), opened(Call::Plain), target, i, at);
    lemma_enclosed(outer.push(t), n, inner, both, at);
    let n1 = operand(n, both, at);
    let p2 = p1 + group;
    lemma_scan_cat(f0, p2, seq![')'], at);
    lemma_close(outer, t, n1, at);
    lemma_disjoint_text(e, test, i);
    lemma_overlaps_meet(value->List_0, test->Disjoint_0);
    called(n1, at)
}

proof fn lemma_overlaps_meet(a: Seq<Seq<char>>, b: Seq<Seq<char>>)
    ensures
        shares(a, b) == overlap(b, a),
{
    if overlap(b, a) {
        let s = choose|s: Seq<char>| b.contains(s) && a.contains(s);
        assert(a.contains(s) && b.contains(s));
    }
    if shares(a, b) {
        let s = choose|s: Seq<char>| #[trigger] a.contains(s) && b.contains(s);
        assert(b.contains(s) && a.contains(s));
    }
}

/// The text of a condition is read as its test.
proof fn lemma_condition(
    outer: Seq<Frame>,
    t: Frame,
    c: ConditionModel,
    i: nat,
    at: Setting,
) -> (b: SqlValue)
    requires
        ready(t),
        bound_from(at.params, i, test_binds(condition_test(c))),
    ensures
        reads_as(outer, t, test_sql(target_sql(c.target), condition_test(c), i), b, at),
        is_true(b) == test_meets(
            condition_test(c),
            target_value(c.target, at.row, at.now),
            at.matches,
        ),
{
    let test = condition_test(c);
    match test {
        ColumnTest::Never => {
            lemma_constant(outer, t, at);
            SqlValue::Bool(false)
        },
        ColumnTest::Always => {
            lemma_constant(outer, t, at);
            SqlValue::Bool(true)
        },
        ColumnTest::Equals(_)
        | ColumnTest::Differs(_)
        | ColumnTest::DistinctFrom(_)
        | ColumnTest::Like(_)
        | ColumnTest::Matches(_) => lemma_plain_test(outer, t, c.target, test, i, at),
        ColumnTest::Above(_)
        | ColumnTest::AtLeast(_)
        | ColumnTest::Below(_)
        | ColumnTest::AtMost(_) => lemma_order_test(outer, t, c.target, test, i, at),
        ColumnTest::Within(_, _) => lemma_interval_test(outer, t, c.target, test, i, at),
        ColumnTest::Known => lemma_known_test(outer, t, c.target, i, at),
        ColumnTest::AnyOf(_) => lemma_any_test(outer, t, c.target, test, i, at),
        ColumnTest::NoneOf(_) => lemma_none_test(outer, t, c.target, test, i, at),
        ColumnTest::Has(_) => lemma_has_test(outer, t, c.target, test, i, at),
        ColumnTest::Overlaps(_) => lemma_overlaps_test(outer, t, c.target, test, i, at),
        ColumnTest::Disjoint(_) => lemma_disjoint_test(outer, t, c.target, test, i, at),
    }
}

// ---------------------------------------------------------------------------
// Groups and rules
// ---------------------------------------------------------------------------

/// The condition is met by the row of the setting.
spec fn condition_meets(c: ConditionModel, at: Setting) -> bool {
    test_meets(condition_test(c), target_value(c.target, at.row, at.now), at.matches)
}

/// All conditions are met.
spec fn all_meet(g: Seq<ConditionModel>, at: Setting) -> bool {
    forall|k: int| 0 <= k < g.len() ==> condition_meets(#[trigger] g[k], at)
}

/// Some group has conditions, and all of them are met.
spec fn some_meets(gs: Seq<Seq<ConditionModel>>, at: Setting) -> bool {
    exists|k: int| 0 <= k < gs.len() && (#[trigger] gs[k]).len() > 0 && all_meet(gs[k], at)
}

/// A frame in which the last condition was read.
spec fn complete(t: Frame) -> bool {
    &&& t.left is Some
    &&& t.sign is None
    &&& t.is is Nothing
    &&& t.calling is Plain
    &&& !t.negated
    &&& t.call is Plain
}

proof fn lemma_bound_part(
    params: Seq<BindModel>,
    i: nat,
    a: Seq<BindModel>,
    b: Seq<BindModel>,
)
    requires
        bound_from(params, i, a + b),
    ensures
        bound_from(params, i, a),
        bound_from(params, i + a.len(), b),
{
    assert forall|k: int| 0 <= k < a.len() implies params[i - 1 + k] == #[trigger] a[k] by {
        assert((a + b)[k] == a[k]);
    }
    assert forall|k: int| 0 <= k < b.len() implies params[i + a.len() - 1 + k] == #[trigger] b[k] by {
        assert((a + b)[a.len() + k] == b[k]);
    }
}

proof fn lemma_tests_len(g: Seq<ConditionModel>, first: nat)
    ensures
        group_tests(g, first).len() == g.len(),
    decreases g.len(),
{
    if g.len() > 0 {
        lemma_tests_len(g.drop_last(), first);
    }
}

/// The conditions of a group, with `AND` between them, in a bracket of their own.
proof fn lemma_conditions(
    outer: Seq<Frame>,
    g: Seq<ConditionModel>,
    first: nat,
    at: Setting,
) -> (t: Frame)
    requires
        g.len() > 0,
        bound_from(at.params, first, group_binds(g)),
    ensures
        scan(outer.push(opened(Call::Plain)), joined(group_tests(g, first), " AND "@), at)
            == outer.push(t),
        joined(group_tests(g, first), " AND "@).len() > 0,
        complete(t),
        t.either is None,
        is_true(closed(t)) == all_meet(g, at),
    decreases g.len(),
{
    let u = opened(Call::Plain);
    let before = g.drop_last();
    let c = g.last();
    let n = first + group_binds(before).len();
    let texts = group_tests(g, first);
    lemma_tests_len(g, first);
    lemma_tests_len(before, first);
    lemma_bound_part(at.params, first, group_binds(before), test_binds(condition_test(c)));
    let text = test_sql(target_sql(c.target), condition_test(c), n);
    assert(texts.last() == text);
    if before.len() == 0 {
        assert(group_binds(before).len() == 0);
        assert(texts[0] == text);
        let b = lemma_condition(outer, u, c, n, at);
        assert(all_meet(g, at) == condition_meets(g[0], at)) by {
            if condition_meets(g[0], at) {
                assert forall|k: int| 0 <= k < g.len() implies condition_meets(
                    #[trigger] g[k],
                    at,
                ) by {
                    assert(k == 0);
                }
            }
        }
        with_left(u, b)
    } else {
        let t = lemma_conditions(outer, before, first, at);
        let f0 = outer.push(u);
        let head = joined(group_tests(before, first), " AND "@);
        assert(texts.drop_last() =~= group_tests(before, first));
        assert(joined(texts, " AND "@) == head + " AND "@ + text);
        lemma_keywords();
        reveal_strlit(" AND ");
        reveal_strlit("AND");
        assert(" AND "@ =~= and_text());
        lemma_scan_cat(f0, head, and_text(), at);
        lemma_spaced(outer, t, and_text(), "AND"@, Class::Name, at);
        let t1 = word_read(t, Token::And, at);
        assert((head + and_text()).last() == ' ');
        lemma_scan_cat(f0, head + and_text(), text, at);
        let b = lemma_condition(outer, t1, c, n, at);
        let t2 = with_left(t1, b);
        assert(conjunction(t) == closed(t));
        assert(closed(t2) == and_value(closed(t), b));
        assert(all_meet(g, at) == (all_meet(before, at) && condition_meets(c, at))) by {
            if all_meet(before, at) && condition_meets(c, at) {
                assert forall|k: int| 0 <= k < g.len() implies condition_meets(
                    #[trigger] g[k],
                    at,
                ) by {
                    if k < before.len() {
                        assert(condition_meets(before[k], at));
                    }
                }
            }
            if all_meet(g, at) {
                assert forall|k: int| 0 <= k < before.len() implies condition_meets(
                    #[trigger] before[k],
                    at,
                ) by {
                    assert(condition_meets(g[k], at));
                }
                assert(condition_meets(g[g.len() - 1], at));
            }
        }
        t2
    }
}

/// The text of a group is read as all of its conditions.
proof fn lemma_group(
    outer: Seq<Frame>,
    t: Frame,
    g: Seq<ConditionModel>,
    first: nat,
    at: Setting,
) -> (b: SqlValue)
    requires
        ready(t),
        bound_from(at.params, first, group_binds(g)),
    ensures
        reads_as(outer, t, group_sql(g, first), b, at),
        is_true(b) == (g.len() > 0 && all_meet(g, at)),
{
    if g.len() == 0 {
        lemma_constant(outer, t, at);
        SqlValue::Bool(false)
    } else {
        let inner = joined(group_tests(g, first), " AND "@);
        let u = lemma_conditions(outer.push(t), g, first, at);
        let f0 = outer.push(t);
        reveal_strlit("(");
        reveal_strlit(")");
        assert("("@ =~= seq!['(']);
        assert(")"@ =~= seq![')']);
        lemma_open(outer, t, at);
        assert(Frame { calling: Call::Plain, ..t } == t);
        lemma_scan_cat(f0, seq!['('], inner, at);
        lemma_scan_cat(f0, seq!['('] + inner, seq![')'], at);
        lemma_close(outer, t, u, at);
        assert(operand(t, closed(u), at) == with_left(t, closed(u)));
        closed(u)
    }
}

proof fn lemma_groups_len(gs: Seq<Seq<ConditionModel>>, first: nat)
    ensures
        groups_sql(gs, first).len() == gs.len(),
    decreases gs.len(),
{
    if gs.len() > 0 {
        lemma_groups_len(gs.drop_last(), first);
    }
}

proof fn lemma_some_meets(gs: Seq<Seq<ConditionModel>>, at: Setting)
    requires
        gs.len() > 0,
    ensures
        some_meets(gs, at) == (some_meets(gs.drop_last(), at) || (gs.last().len() > 0 && all_meet(
            gs.last(),
            at,
        ))),
{
    let before = gs.drop_last();
    if some_meets(before, at) {
        let k = choose|k: int|
            0 <= k < before.len() && (#[trigger] before[k]).len() > 0 && all_meet(before[k], at);
        assert(gs[k].len() > 0 && all_meet(gs[k], at));
    }
    if gs.last().len() > 0 && all_meet(gs.last(), at) {
        assert(gs[gs.len() - 1].len() > 0);
    }
    if some_meets(gs, at) {
        let k = choose|k: int|
            0 <= k < gs.len() && (#[trigger] gs[k]).len() > 0 && all_meet(gs[k], at);
        if k < before.len() {
            assert(before[k].len() > 0 && all_meet(before[k], at));
        }
    }
}

/// The groups of a rule, with `OR` between them, in a bracket of their own.
proof fn lemma_groups(
    outer: Seq<Frame>,
    gs: Seq<Seq<ConditionModel>>,
    first: nat,
    at: Setting,
) -> (t: Frame)
    requires
        gs.len() > 0,
        bound_from(at.params, first, groups_binds(gs)),
    ensures
        scan(outer.push(opened(Call::Plain)), joined(groups_sql(gs, first), " OR "@), at)
            == outer.push(t),
        joined(groups_sql(gs, first), " OR "@).len() > 0,
        complete(t),
        is_true(closed(t)) == some_meets(gs, at),
    decreases gs.len(),
{
    let u = opened(Call::Plain);
    let before = gs.drop_last();
    let g = gs.last();
    let n = first + groups_binds(before).len();
    let texts = groups_sql(gs, first);
    lemma_groups_len(gs, first);
    lemma_groups_len(before, first);
    lemma_bound_part(at.params, first, groups_binds(before), group_binds(g));
    lemma_some_meets(gs, at);
    let text = group_sql(g, n);
    assert(texts.last() == text);
    if before.len() == 0 {
        assert(groups_binds(before).len() == 0);
        assert(texts[0] == text);
        assert(!some_meets(before, at));
        let b = lemma_group(outer, u, g, n, at);
        with_left(u, b)
    } else {
        let t = lemma_groups(outer, before, first, at);
        let f0 = outer.push(u);
        let head = joined(groups_sql(before, first), " OR "@);
        assert(texts.drop_last() =~= groups_sql(before, first));
        assert(joined(texts, " OR "@) == head + " OR "@ + text);
        lemma_keywords();
        reveal_strlit(" OR ");
        reveal_strlit("OR");
        assert(" OR "@ =~= or_text());
        lemma_scan_cat(f0, head, or_text(), at);
        lemma_spaced(outer, t, or_text(), "OR"@, Class::Name, at);
        let t1 = word_read(t, Token::Or, at);
        assert((head + or_text()).last() == ' ');
        lemma_scan_cat(f0, head + or_text(), text, at);
        let b = lemma_group(outer, t1, g, n, at);
        let t2 = with_left(t1, b);
        assert(closed(t2) == or_value(closed(t), b));
        t2
    }
}

/// The text of a rule is read as one of its groups.
proof fn lemma_rule(outer: Seq<Frame>, t: Frame, r: RuleModel, offset: nat, at: Setting) -> (b:
    SqlValue)
    requires
        ready(t),
        bound_from(at.params, offset + 1, rule_binds(r)),
    ensures
        reads_as(outer, t, rule_sql(r, offset), b, at),
        is_true(b) == (r.grant_on_any_relation || some_meets(r.groups, at)),
{
    if r.grant_on_any_relation || r.groups.len() == 0 {
        lemma_constant(outer, t, at);
        SqlValue::Bool(r.grant_on_any_relation)
    } else {
        let inner = joined(groups_sql(r.groups, offset + 1), " OR "@);
        let u = lemma_groups(outer.push(t), r.groups, offset + 1, at);
        let f0 = outer.push(t);
        reveal_strlit("(");
        reveal_strlit(")");
        assert("("@ =~= seq!['(']);
        assert(")"@ =~= seq![')']);
        lemma_open(outer, t, at);
        assert(Frame { calling: Call::Plain, ..t } == t);
        lemma_scan_cat(f0, seq!['('], inner, at);
        lemma_scan_cat(f0, seq!['('] + inner, seq![')'], at);
        lemma_close(outer, t, u, at);
        assert(operand(t, closed(u), at) == with_left(t, closed(u)));
        closed(u)
    }
}

/// A text that is read in the outermost frame has the value that was read.
proof fn lemma_value(text: Seq<char>, t: Frame, at: Setting)
    requires
        scan(Seq::<Frame>::empty().push(opened(Call::Plain)), text, at)
            == Seq::<Frame>::empty().push(t),
    ensures
        value_of(text, at) == closed(t),
{
    let none = Seq::<Frame>::empty();
    assert(none.push(opened(Call::Plain)) =~= seq![opened(Call::Plain)]);
    assert(none.push(t)[0] == t);
}

// ---------------------------------------------------------------------------
// The laws
// ---------------------------------------------------------------------------

/// The text of a condition, read as SQL, is true of a row exactly where the
/// condition's test is true of the target's value. The parameters are those that
/// were bound before, and the condition's own behind them.
pub proof fn condition_text_means_its_test(
    c: ConditionModel,
    i: nat,
    at: Setting,
)
    requires
        bound_from(at.params, i, test_binds(condition_test(c))),
    ensures
        text_selects(test_sql(target_sql(c.target), condition_test(c), i), at) == test_meets(
            condition_test(c),
            target_value(c.target, at.row, at.now),
            at.matches,
        ),
{
    let t = opened(Call::Plain);
    let v = lemma_condition(Seq::empty(), t, c, i, at);
    lemma_value(test_sql(target_sql(c.target), condition_test(c), i), with_left(t, v), at);
}

/// The clause that is written for a rule, read as SQL with the values that are
/// bound for it behind as many others as it was told of, selects exactly the
/// members that the rule admits.
pub proof fn clause_text_selects_whom_the_rule_admits(
    tree: RuleTree,
    offset: usize,
    clause: String,
    binds: Vec<Bind>,
    before: Seq<BindModel>,
    account: i64,
    member: Seq<char>,
    f: FactsModel,
    now: Timestamp,
    matches: spec_fn(Seq<char>, Seq<char>) -> bool,
)
    requires
        call_ensures(build_rule_where, (&tree, offset), (clause, binds)),
        before.len() == offset,
        forall|i: int, k: int|
            0 <= i < tree@.groups.len() && 0 <= k < tree@.groups[i].len() ==> same_language(
                #[trigger] tree@.groups[i][k],
            ),
    ensures
        text_selects(
            clause@,
            (Setting {
                account,
                member,
                row: f,
                now,
                params: before + binds_model(binds@),
                matches,
            }),
        ) == rule_holds(tree@, f, now),
{
    let r = tree@;
    let values = rule_binds(r);
    let at = Setting {
        account,
        member,
        row: f,
        now,
        params: before + binds_model(binds@),
        matches,
    };
    assert(bound_from(at.params, (offset + 1) as nat, values)) by {
        assert forall|k: int| 0 <= k < values.len() implies at.params[offset + 1 - 1 + k]
            == #[trigger] values[k] by {}
    }
    let t = opened(Call::Plain);
    let v = lemma_rule(Seq::empty(), t, r, offset as nat, at);
    lemma_value(rule_sql(r, offset as nat), with_left(t, v), at);
    lemma_meets_rule(r, at);
}

/// What a rule's groups meet is what the rule admits.
proof fn lemma_meets_rule(r: RuleModel, at: Setting)
    requires
        forall|i: int, k: int|
            0 <= i < r.groups.len() && 0 <= k < r.groups[i].len() ==> same_language(
                #[trigger] r.groups[i][k],
            ),
    ensures
        (r.grant_on_any_relation || some_meets(r.groups, at)) == rule_holds(r, at.row, at.now),
{
    clause_selects_whom_the_rule_admits(r, at.row, at.now);
    if !r.grant_on_any_relation {
        lemma_meets_selects(r.groups, at.row, at.now, at);
    }
}

proof fn lemma_meets_selects(
    gs: Seq<Seq<ConditionModel>>,
    f: FactsModel,
    now: Timestamp,
    at: Setting,
)
    requires
        at.row == f,
        at.now == now,
        forall|i: int, k: int|
            0 <= i < gs.len() && 0 <= k < gs[i].len() ==> same_language(#[trigger] gs[i][k]),
    ensures
        some_meets(gs, at) == exists|i: int|
            0 <= i < gs.len() && group_selects(#[trigger] gs[i], f, now),
{
    assert forall|i: int| 0 <= i < gs.len() implies group_selects(#[trigger] gs[i], f, now) == (
    gs[i].len() > 0 && all_meet(gs[i], at)) by {
        let g = gs[i];
        assert forall|k: int| 0 <= k < g.len() implies condition_selects(#[trigger] g[k], f, now)
            == condition_meets(g[k], at) by {
            assert(same_language(gs[i][k]));
        }
        if group_selects(g, f, now) {
            assert forall|k: int| 0 <= k < g.len() implies condition_meets(#[trigger] g[k], at) by {
                assert(condition_selects(g[k], f, now));
            }
        }
        if g.len() > 0 && all_meet(g, at) {
            assert forall|k: int| 0 <= k < g.len() implies condition_selects(
                #[trigger] g[k],
                f,
                now,
            ) by {
                assert(condition_meets(g[k], at));
            }
        }
    }
}

// ---------------------------------------------------------------------------
// LIKE
// ---------------------------------------------------------------------------

/// In a pattern, `%` stands for any run of characters.
pub proof fn percent_stands_for_any_run(s: Seq<char>, rest: Seq<char>)
    ensures
        like(s, seq!['%'] + rest) <==> exists|k: int|
            0 <= k <= s.len() && like(#[trigger] s.skip(k), rest),
    decreases s.len(),
{
    let p = seq!['%'] + rest;
    assert(p.drop_first() =~= rest);
    assert(s.skip(0) =~= s);
    if s.len() > 0 {
        let t = s.drop_first();
        percent_stands_for_any_run(t, rest);
        if exists|k: int| 0 <= k <= t.len() && like(#[trigger] t.skip(k), rest) {
            let k = choose|k: int| 0 <= k <= t.len() && like(#[trigger] t.skip(k), rest);
            assert(s.skip(k + 1) =~= t.skip(k));
        }
        if exists|k: int| 0 <= k <= s.len() && like(#[trigger] s.skip(k), rest) {
            let k = choose|k: int| 0 <= k <= s.len() && like(#[trigger] s.skip(k), rest);
            if k > 0 {
                assert(s.skip(k) =~= t.skip(k - 1));
            }
        }
    } else if exists|k: int| 0 <= k <= s.len() && like(#[trigger] s.skip(k), rest) {
        let k = choose|k: int| 0 <= k <= s.len() && like(#[trigger] s.skip(k), rest);
        assert(s.skip(k) =~= s);
    }
}

/// `_` stands for one character, one behind a backslash for itself, as does every
/// other one, and an empty pattern for an empty text.
pub proof fn other_characters_stand_for_one(s: Seq<char>, c: char, rest: Seq<char>)
    ensures
        like(s, Seq::empty()) <==> s.len() == 0,
        like(s, seq!['_'] + rest) <==> s.len() > 0 && like(s.drop_first(), rest),
        like(s, seq!['\\', c] + rest) <==> s.len() > 0 && s[0] == c && like(
            s.drop_first(),
            rest,
        ),
        c != '%' && c != '_' && c != '\\' ==> (like(s, seq![c] + rest) <==> s.len() > 0 && s[0]
            == c && like(s.drop_first(), rest)),
{
    assert((seq!['_'] + rest).drop_first() =~= rest);
    assert((seq!['\\', c] + rest).skip(2) =~= rest);
    assert((seq![c] + rest).drop_first() =~= rest);
}

// ---------------------------------------------------------------------------
// The queries
// ---------------------------------------------------------------------------

/// Read as SQL, the text selects exactly the rows of the account whose member has
/// not opted out and is admitted by the rule. The first parameter is the account,
/// the second the members who opted out, and the rule's values follow.
pub open spec fn selects_members(text: Seq<char>, r: RuleModel, values: Seq<BindModel>) -> bool {
    forall|at: Setting, account: i64, optouts: Seq<Seq<char>>|
        at.params == seq![BindModel::Int(account), BindModel::TextArray(optouts)] + values
            ==> #[trigger] text_selects_with(text, at, account, optouts) == (at.account == account
            && !optouts.contains(at.member) && rule_holds(r, at.row, at.now))
}

/// The text selects the row of the setting, with these first parameters.
pub open spec fn text_selects_with(
    text: Seq<char>,
    at: Setting,
    account: i64,
    optouts: Seq<Seq<char>>,
) -> bool {
    text_selects(text, at)
}

spec fn account_text() -> Seq<char> {
    "mf.account_ref"@ + spaced(seq!['=']) + parameter(1)
}

spec fn optout_text() -> Seq<char> {
    "mf.discord_id"@ + spaced(seq!['<', '>']) + "ALL"@ + seq!['('] + (parameter(2) + cast_text())
        + seq![')']
}

spec fn members_text(r: RuleModel) -> Seq<char> {
    account_text() + and_text() + optout_text() + and_text() + (seq!['('] + rule_sql(r, 2) + seq![
        ')',
    ])
}

proof fn lemma_members_text(r: RuleModel, values: Seq<BindModel>)
    requires
        values == rule_binds(r),
        forall|i: int, k: int|
            0 <= i < r.groups.len() && 0 <= k < r.groups[i].len() ==> same_language(
                #[trigger] r.groups[i][k],
            ),
    ensures
        selects_members(members_text(r), r, values),
{
    let text = members_text(r);
    assert forall|at: Setting, account: i64, optouts: Seq<Seq<char>>|
        at.params == seq![BindModel::Int(account), BindModel::TextArray(optouts)] + values implies
        #[trigger] text_selects_with(text, at, account, optouts) == (at.account == account
        && !optouts.contains(at.member) && rule_holds(r, at.row, at.now)) by {
        lemma_members_row(r, values, at, account, optouts);
    }
}

/// The test of the account.
proof fn lemma_account_part(t: Frame, account: i64, at: Setting)
    requires
        ready(t),
        at.params.len() >= 1,
        at.params[0] == BindModel::Int(account),
    ensures
        reads_as(
            Seq::empty(),
            t,
            account_text(),
            SqlValue::Bool(at.account == account),
            at,
        ),
{
    let none = Seq::<Frame>::empty();
    let own = SqlValue::Int(at.account as int);
    lemma_own_columns();
    lemma_column(none, t, "mf.account_ref"@, at);
    assert(reads_as(none, t, "mf.account_ref"@, own, at));
    lemma_sign_word(seq!['='], Op::Equal);
    lemma_sign_between(
        none,
        with_left(t, own),
        spaced(seq!['=']),
        seq!['='],
        Class::Sign,
        Op::Equal,
        at,
    );
    lemma_comparison(none, t, "mf.account_ref"@, own, spaced(seq!['=']), Op::Equal, 1, at);
    assert(applied(Op::Equal, own, bound_at(1, at), at) == SqlValue::Bool(at.account == account));
}

/// The test of the members who opted out.
proof fn lemma_optout_part(t: Frame, optouts: Seq<Seq<char>>, at: Setting)
    requires
        ready(t),
        at.params.len() >= 2,
        at.params[1] == BindModel::TextArray(optouts),
    ensures
        reads_as(
            Seq::empty(),
            t,
            optout_text(),
            SqlValue::Bool(!optouts.contains(at.member)),
            at,
        ),
{
    let none = Seq::<Frame>::empty();
    let who = SqlValue::Text(at.member);
    lemma_own_columns();
    lemma_column(none, t, "mf.discord_id"@, at);
    assert(reads_as(none, t, "mf.discord_id"@, who, at));
    lemma_word_all();
    lemma_sign_word(seq!['<', '>'], Op::Unequal);
    lemma_list_parameter(Call::All, 2, at);
    lemma_quantified(
        none,
        t,
        "mf.discord_id"@,
        who,
        seq!['<', '>'],
        Op::Unequal,
        "ALL"@,
        Call::All,
        parameter(2) + cast_text(),
        bound_at(2, at),
        at,
    );
    assert(called(with_left(opened(Call::All), bound_at(2, at)), at) == SqlValue::Every(optouts));
    assert(applied(Op::Unequal, who, SqlValue::Every(optouts), at) == SqlValue::Bool(
        !optouts.contains(at.member),
    ));
}

/// Three conditions with `AND` between them, the last one in brackets.
proof fn lemma_three(
    a: Seq<char>,
    x: SqlValue,
    b: Seq<char>,
    y: SqlValue,
    c: Seq<char>,
    z: SqlValue,
    at: Setting,
)
    requires
        reads_as(Seq::empty(), opened(Call::Plain), a, x, at),
        reads_as(Seq::empty(), Frame { both: Some(x), ..opened(Call::Plain) }, b, y, at),
        reads_as(
            Seq::empty().push(Frame { both: Some(and_value(x, y)), ..opened(Call::Plain) }),
            opened(Call::Plain),
            c,
            z,
            at,
        ),
    ensures
        value_of(a + and_text() + b + and_text() + (seq!['('] + c + seq![')']), at) == and_value(
            and_value(x, y),
            z,
        ),
{
    let none = Seq::<Frame>::empty();
    let t = opened(Call::Plain);
    let f0 = none.push(t);
    let t1 = Frame { both: Some(x), ..t };
    let t2 = Frame { both: Some(and_value(x, y)), ..t };
    lemma_and_word(none, with_left(t, x), at);
    assert(word_read(with_left(t, x), Token::And, at) == t1);
    lemma_scan_cat(f0, a, and_text(), at);
    let p2 = a + and_text();
    assert(p2.last() == ' ');
    lemma_scan_cat(f0, p2, b, at);
    let p3 = p2 + b;
    lemma_and_word(none, with_left(t1, y), at);
    assert(word_read(with_left(t1, y), Token::And, at) == t2);
    lemma_scan_cat(f0, p3, and_text(), at);
    let p4 = p3 + and_text();
    assert(p4.last() == ' ');
    lemma_enclosed(none, t2, c, z, at);
    let last = seq!['('] + c + seq![')'];
    lemma_scan_cat(f0, p4, last, at);
    assert(operand(t2, z, at) == with_left(t2, z));
    lemma_value(p4 + last, with_left(t2, z), at);
    assert(closed(with_left(t2, z)) == and_value(and_value(x, y), z));
}

proof fn lemma_members_row(
    r: RuleModel,
    values: Seq<BindModel>,
    at: Setting,
    account: i64,
    optouts: Seq<Seq<char>>,
)
    requires
        values == rule_binds(r),
        at.params == seq![BindModel::Int(account), BindModel::TextArray(optouts)] + values,
        forall|i: int, k: int|
            0 <= i < r.groups.len() && 0 <= k < r.groups[i].len() ==> same_language(
                #[trigger] r.groups[i][k],
            ),
    ensures
        text_selects(members_text(r), at) == (at.account == account && !optouts.contains(at.member)
            && rule_holds(r, at.row, at.now)),
{
    let t = opened(Call::Plain);
    assert(at.params[0] == BindModel::Int(account));
    assert(at.params[1] == BindModel::TextArray(optouts));
    assert(bound_from(at.params, 3, values)) by {
        assert forall|k: int| 0 <= k < values.len() implies at.params[3 - 1 + k]
            == #[trigger] values[k] by {}
    }
    let x = SqlValue::Bool(at.account == account);
    let y = SqlValue::Bool(!optouts.contains(at.member));
    lemma_account_part(t, account, at);
    lemma_optout_part(Frame { both: Some(x), ..t }, optouts, at);
    let t2 = Frame { both: Some(and_value(x, y)), ..t };
    let b = lemma_rule(Seq::empty().push(t2), t, r, 2, at);
    lemma_three(account_text(), x, optout_text(), y, rule_sql(r, 2), b, at);
    lemma_meets_rule(r, at);
}

/// `AND` between spaces.
proof fn lemma_and_word(outer: Seq<Frame>, t: Frame, at: Setting)
    ensures
        scan(outer.push(t), and_text(), at) == outer.push(word_read(t, Token::And, at)),
        and_text().len() > 0 && and_text()[0] == ' ' && and_text().last() == ' ',
{
    lemma_keywords();
    lemma_spaced(outer, t, and_text(), "AND"@, Class::Name, at);
}

proof fn lemma_account_text()
    ensures
        account_text() == "mf.account_ref = $1"@,
{
    reveal_strlit("mf.account_ref = $1");
    reveal_strlit("mf.account_ref");
    assert(decimal(1) =~= seq!['1']);
    assert(account_text() =~= "mf.account_ref = $1"@);
}

proof fn lemma_optout_text()
    ensures
        optout_text() == "mf.discord_id <> ALL($2::text[])"@,
{
    reveal_strlit("mf.discord_id <> ALL($2::text[])");
    reveal_strlit("mf.discord_id");
    reveal_strlit("ALL");
    reveal_strlit("text");
    assert(decimal(2) =~= seq!['2']);
    assert(optout_text() =~= "mf.discord_id <> ALL($2::text[])"@);
}

proof fn lemma_query_start()
    ensures
        "mf.account_ref = $1 AND mf.discord_id <> ALL($2::text[]) AND ("@ == account_text()
            + and_text() + optout_text() + and_text() + seq!['('],
{
    lemma_account_text();
    lemma_optout_text();
    reveal_strlit("mf.account_ref = $1");
    reveal_strlit("mf.discord_id <> ALL($2::text[])");
    reveal_strlit("AND");
    reveal_strlit("mf.account_ref = $1 AND mf.discord_id <> ALL($2::text[]) AND (");
    assert("mf.account_ref = $1 AND mf.discord_id <> ALL($2::text[]) AND ("@
        =~= "mf.account_ref = $1"@ + and_text() + "mf.discord_id <> ALL($2::text[])"@ + and_text()
        + seq!['(']);
}

proof fn lemma_query_text(head: Seq<char>, r: RuleModel)
    ensures
        head + "mf.account_ref = $1 AND mf.discord_id <> ALL($2::text[]) AND ("@ + rule_sql(r, 2)
            + ")"@ == head + members_text(r),
{
    lemma_query_start();
    reveal_strlit(")");
    assert(")"@ =~= seq![')']);
    let before = account_text() + and_text() + optout_text() + and_text();
    let sql = rule_sql(r, 2);
    assert(head + (before + seq!['(']) + sql + seq![')'] =~= head + (before + (seq!['('] + sql
        + seq![')'])));
}

/// The query for a role link's members asks for the members that the rule admits
/// in the account and that have not opted out, in order and no more than the
/// parameter behind all others says.
pub proof fn members_query_asks_for_the_admitted(
    tree: RuleTree,
    query: String,
    binds: Vec<Bind>,
)
    requires
        call_ensures(members_query, (&tree,), (query, binds)),
        forall|i: int, k: int|
            0 <= i < tree@.groups.len() && 0 <= k < tree@.groups[i].len() ==> same_language(
                #[trigger] tree@.groups[i][k],
            ),
    ensures
        exists|text: Seq<char>|
            {
                &&& #[trigger] selects_members(text, tree@, binds_model(binds@))
                &&& query@ == "SELECT mf.discord_id FROM stripe_member_facts mf WHERE "@ + text
                    + " ORDER BY mf.discord_id LIMIT $"@ + decimal(
                    (2 + binds@.len() + 1) as nat,
                )
            },
{
    let r = tree@;
    let head = "SELECT mf.discord_id FROM stripe_member_facts mf WHERE "@;
    lemma_members_text(r, binds_model(binds@));
    lemma_query_text(head, r);
    assert(binds_model(binds@).len() == binds@.len());
    reveal_strlit(") ORDER BY mf.discord_id LIMIT $");
    reveal_strlit(" ORDER BY mf.discord_id LIMIT $");
    reveal_strlit(")");
    assert(") ORDER BY mf.discord_id LIMIT $"@ =~= ")"@ + " ORDER BY mf.discord_id LIMIT $"@);
    let start = head + "mf.account_ref = $1 AND mf.discord_id <> ALL($2::text[]) AND ("@ + rule_sql(
        r,
        2,
    );
    let n = decimal((2 + binds@.len() + 1) as nat);
    assert(start + (")"@ + " ORDER BY mf.discord_id LIMIT $"@) + n =~= start + ")"@
        + " ORDER BY mf.discord_id LIMIT $"@ + n);
}

/// The query of a preview counts the members that the rule admits in the account
/// and that have not opted out.
pub proof fn count_query_counts_the_admitted(tree: RuleTree, query: String, binds: Vec<Bind>)
    requires
        call_ensures(count_query, (&tree,), (query, binds)),
        forall|i: int, k: int|
            0 <= i < tree@.groups.len() && 0 <= k < tree@.groups[i].len() ==> same_language(
                #[trigger] tree@.groups[i][k],
            ),
    ensures
        exists|text: Seq<char>|
            {
                &&& #[trigger] selects_members(text, tree@, binds_model(binds@))
                &&& query@ == "SELECT count(*) FROM stripe_member_facts mf WHERE "@ + text
            },
{
    let r = tree@;
    lemma_members_text(r, binds_model(binds@));
    lemma_query_text("SELECT count(*) FROM stripe_member_facts mf WHERE "@, r);
}

} // verus!
