//! What the text of a WHERE clause means.
//!
//! A text is split into words, and the words are read from left to right:
//! columns of the row, parameters, comparison signs, the words of SQL and
//! brackets. The reading follows SQL: a comparison binds closer than `NOT`,
//! `NOT` closer than `AND`, and `AND` closer than `OR`, and a comparison with
//! NULL is NULL. Nothing here depends on how a clause is written.
use vstd::prelude::*;
use crate::clock::Timestamp;
use crate::models::facts::FactsModel;
use crate::numeral::{all_digits, digits_value};
use crate::services::rule_sql::{like, BindModel};

verus! {

// ---------------------------------------------------------------------------
// Words
// ---------------------------------------------------------------------------

/// What a character can be a part of.
#[derive(PartialEq, Eq, Structural)]
pub enum Class {
    Space,
    Name,
    Sign,
    Bracket,
}

pub open spec fn class(c: char) -> Class {
    if c == ' ' {
        Class::Space
    } else if 'a' <= c <= 'z' || 'A' <= c <= 'Z' || '0' <= c <= '9' || c == '_' || c == '.' || c
        == '$' {
        Class::Name
    } else if c == '<' || c == '>' || c == '=' || c == '~' || c == '&' || c == ':' || c == '/' || c
        == '-' || c == '!' {
        Class::Sign
    } else {
        Class::Bracket
    }
}

/// How many characters of the class the text starts with.
pub open spec fn stretch(s: Seq<char>, k: Class) -> nat
    decreases s.len(),
{
    if s.len() > 0 && class(s[0]) == k {
        1 + stretch(s.drop_first(), k)
    } else {
        0
    }
}

/// How long the word is that the text starts with: names and signs are as long
/// as they can be, a bracket stands alone.
pub open spec fn word_length(s: Seq<char>) -> nat {
    if class(s[0]) is Bracket {
        1
    } else {
        stretch(s, class(s[0]))
    }
}

/// The words of a text.
pub open spec fn words(s: Seq<char>) -> Seq<Seq<char>>
    decreases s.len(),
{
    if s.len() == 0 {
        Seq::empty()
    } else if class(s[0]) is Space {
        words(s.drop_first())
    } else if 0 < word_length(s) <= s.len() {
        seq![s.take(word_length(s) as int)] + words(s.skip(word_length(s) as int))
    } else {
        Seq::empty()
    }
}

// ---------------------------------------------------------------------------
// Values
// ---------------------------------------------------------------------------

/// A value of SQL, as far as a clause has any.
pub enum SqlValue {
    Null,
    Bool(bool),
    Int(int),
    Text(Seq<char>),
    List(Seq<Seq<char>>),
    /// A point in time, in nanoseconds since the epoch.
    Instant(int),
    /// A span of time, in nanoseconds.
    Span(int),
    /// A fraction.
    Ratio(int, int),
    /// `ANY` of a list.
    Each(Seq<Seq<char>>),
    /// `ALL` of a list.
    Every(Seq<Seq<char>>),
    /// What is not understood.
    Odd,
}

pub open spec fn is_true(v: SqlValue) -> bool {
    v == SqlValue::Bool(true)
}

pub open spec fn text_value(s: Option<Seq<char>>) -> SqlValue {
    match s {
        Some(t) => SqlValue::Text(t),
        None => SqlValue::Null,
    }
}

pub open spec fn time_value(t: Option<Timestamp>) -> SqlValue {
    match t {
        Some(p) => SqlValue::Instant(p.instant()),
        None => SqlValue::Null,
    }
}

/// What the row has in a column: the fact of the same name.
pub open spec fn cell(name: Seq<char>, f: FactsModel) -> SqlValue {
    if name == "mf.has_active_subscription"@ {
        SqlValue::Bool(f.has_active_subscription)
    } else if name == "mf.subscription_status"@ {
        text_value(f.subscription_status)
    } else if name == "mf.is_trialing"@ {
        SqlValue::Bool(f.is_trialing)
    } else if name == "mf.is_past_due"@ {
        SqlValue::Bool(f.is_past_due)
    } else if name == "mf.cancels_at_period_end"@ {
        SqlValue::Bool(f.cancels_at_period_end)
    } else if name == "mf.active_subscription_count"@ {
        SqlValue::Int(f.active_subscription_count as int)
    } else if name == "mf.product_ids"@ {
        SqlValue::List(f.product_ids)
    } else if name == "mf.price_ids"@ {
        SqlValue::List(f.price_ids)
    } else if name == "mf.plan_amount_cents"@ {
        SqlValue::Int(f.plan_amount_cents as int)
    } else if name == "mf.billing_interval"@ {
        text_value(f.billing_interval)
    } else if name == "mf.subscription_started_at"@ {
        time_value(f.subscription_started_at)
    } else if name == "mf.current_period_end"@ {
        time_value(f.current_period_end)
    } else if name == "mf.total_mrr_cents"@ {
        SqlValue::Int(f.total_mrr_cents as int)
    } else if name == "mf.is_customer"@ {
        SqlValue::Bool(f.is_customer)
    } else if name == "mf.customer_created_at"@ {
        time_value(f.customer_created_at)
    } else if name == "mf.is_delinquent"@ {
        SqlValue::Bool(f.is_delinquent)
    } else if name == "mf.lifetime_spend_cents"@ {
        SqlValue::Int(f.lifetime_spend_cents as int)
    } else if name == "mf.successful_payments"@ {
        SqlValue::Int(f.successful_payments as int)
    } else if name == "mf.country_code"@ {
        text_value(f.country_code)
    } else if name == "mf.currency"@ {
        text_value(f.currency)
    } else if name == "mf.email_domain"@ {
        text_value(f.email_domain)
    } else {
        SqlValue::Odd
    }
}

/// What stands in a column: of the account, of the member or of the facts.
pub open spec fn column(name: Seq<char>, at: Setting) -> SqlValue {
    if name == "mf.account_ref"@ {
        SqlValue::Int(at.account as int)
    } else if name == "mf.discord_id"@ {
        SqlValue::Text(at.member)
    } else {
        cell(name, at.row)
    }
}

pub open spec fn bound(b: BindModel) -> SqlValue {
    match b {
        BindModel::Bool(v) => SqlValue::Bool(v),
        BindModel::Int(n) => SqlValue::Int(n as int),
        BindModel::Text(s) => SqlValue::Text(s),
        BindModel::TextArray(l) => SqlValue::List(l),
    }
}

/// What a clause is read against: the row with the account and the member that it
/// is about, the time, the parameters, and what a regular expression matches.
pub struct Setting {
    pub account: i64,
    pub member: Seq<char>,
    pub row: FactsModel,
    pub now: Timestamp,
    pub params: Seq<BindModel>,
    pub matches: spec_fn(Seq<char>, Seq<char>) -> bool,
}

/// The signs between two values.
pub enum Op {
    Equal,
    Unequal,
    Greater,
    GreaterEqual,
    Less,
    LessEqual,
    Like,
    Match,
    Overlap,
    Minus,
    Over,
    Distinct,
}

/// Some text is in both lists.
pub open spec fn shares(a: Seq<Seq<char>>, b: Seq<Seq<char>>) -> bool {
    exists|s: Seq<char>| #[trigger] a.contains(s) && b.contains(s)
}

/// The comparison, or the other operation, of two values.
pub open spec fn applied(op: Op, l: SqlValue, r: SqlValue, at: Setting) -> SqlValue {
    if op is Distinct {
        match (l, r) {
            (SqlValue::Null, SqlValue::Null) => SqlValue::Bool(false),
            (SqlValue::Null, _) => SqlValue::Bool(true),
            (_, SqlValue::Null) => SqlValue::Bool(true),
            (SqlValue::Text(a), SqlValue::Text(b)) => SqlValue::Bool(a != b),
            _ => SqlValue::Odd,
        }
    } else if l is Null || r is Null {
        SqlValue::Null
    } else {
        match (op, l, r) {
            (Op::Equal, SqlValue::Bool(a), SqlValue::Bool(b)) => SqlValue::Bool(a == b),
            (Op::Equal, SqlValue::Int(a), SqlValue::Int(b)) => SqlValue::Bool(a == b),
            (Op::Equal, SqlValue::Text(a), SqlValue::Text(b)) => SqlValue::Bool(a == b),
            (Op::Equal, SqlValue::List(a), SqlValue::List(b)) => SqlValue::Bool(a == b),
            (Op::Equal, SqlValue::Text(a), SqlValue::Each(b)) => SqlValue::Bool(b.contains(a)),
            (Op::Unequal, SqlValue::Int(a), SqlValue::Int(b)) => SqlValue::Bool(a != b),
            (Op::Unequal, SqlValue::Text(a), SqlValue::Text(b)) => SqlValue::Bool(a != b),
            (Op::Unequal, SqlValue::Text(a), SqlValue::Every(b)) => SqlValue::Bool(!b.contains(a)),
            (Op::Greater, SqlValue::Int(a), SqlValue::Int(b)) => SqlValue::Bool(a > b),
            (Op::GreaterEqual, SqlValue::Int(a), SqlValue::Int(b)) => SqlValue::Bool(a >= b),
            (Op::Less, SqlValue::Int(a), SqlValue::Int(b)) => SqlValue::Bool(a < b),
            (Op::LessEqual, SqlValue::Int(a), SqlValue::Int(b)) => SqlValue::Bool(a <= b),
            (Op::Like, SqlValue::Text(a), SqlValue::Text(p)) => SqlValue::Bool(like(a, p)),
            (Op::Match, SqlValue::Text(a), SqlValue::Text(p)) => SqlValue::Bool((at.matches)(a, p)),
            (Op::Overlap, SqlValue::List(a), SqlValue::List(b)) => SqlValue::Bool(shares(a, b)),
            (Op::Minus, SqlValue::Instant(a), SqlValue::Instant(b)) => SqlValue::Span(a - b),
            (Op::Over, SqlValue::Ratio(n, d), SqlValue::Int(k)) => SqlValue::Ratio(n, d * k),
            _ => SqlValue::Odd,
        }
    }
}

/// `TRUNC`: the whole part, toward zero.
pub open spec fn truncated(v: SqlValue) -> SqlValue {
    match v {
        SqlValue::Null => SqlValue::Null,
        SqlValue::Ratio(n, d) => if n >= 0 {
            SqlValue::Int(n / d)
        } else {
            SqlValue::Int(-((-n) / d))
        },
        _ => SqlValue::Odd,
    }
}

/// `EXTRACT(EPOCH FROM ..)`: the seconds of a span.
pub open spec fn seconds_of(v: SqlValue) -> SqlValue {
    match v {
        SqlValue::Null => SqlValue::Null,
        SqlValue::Span(nanos) => SqlValue::Ratio(nanos, 1_000_000_000),
        _ => SqlValue::Odd,
    }
}

pub open spec fn not_value(v: SqlValue) -> SqlValue {
    match v {
        SqlValue::Bool(b) => SqlValue::Bool(!b),
        SqlValue::Null => SqlValue::Null,
        _ => SqlValue::Odd,
    }
}

pub open spec fn and_value(a: SqlValue, b: SqlValue) -> SqlValue {
    match (a, b) {
        (SqlValue::Bool(x), SqlValue::Bool(y)) => SqlValue::Bool(x && y),
        (SqlValue::Bool(false), _) => SqlValue::Bool(false),
        (_, SqlValue::Bool(false)) => SqlValue::Bool(false),
        _ => SqlValue::Null,
    }
}

pub open spec fn or_value(a: SqlValue, b: SqlValue) -> SqlValue {
    match (a, b) {
        (SqlValue::Bool(x), SqlValue::Bool(y)) => SqlValue::Bool(x || y),
        (SqlValue::Bool(true), _) => SqlValue::Bool(true),
        (_, SqlValue::Bool(true)) => SqlValue::Bool(true),
        _ => SqlValue::Null,
    }
}

// ---------------------------------------------------------------------------
// What a word is
// ---------------------------------------------------------------------------

/// What an opening bracket belongs to.
pub enum Call {
    Plain,
    Trunc,
    Extract,
    Now,
    Any,
    All,
}

pub enum Token {
    Open,
    Close,
    Function(Call),
    And,
    Or,
    Not,
    Is,
    Null,
    Distinct,
    From,
    Epoch,
    Truth(bool),
    Sign(Op),
    /// A part of a cast, which changes no value.
    Cast,
    Column(Seq<char>),
    Param(nat),
    Number(nat),
    Odd,
}

/// A word of letters.
pub open spec fn keyword(w: Seq<char>) -> Token {
    if w == "AND"@ {
        Token::And
    } else if w == "OR"@ {
        Token::Or
    } else if w == "NOT"@ {
        Token::Not
    } else if w == "IS"@ {
        Token::Is
    } else if w == "NULL"@ {
        Token::Null
    } else if w == "DISTINCT"@ {
        Token::Distinct
    } else if w == "FROM"@ {
        Token::From
    } else if w == "EPOCH"@ {
        Token::Epoch
    } else if w == "TRUE"@ {
        Token::Truth(true)
    } else if w == "FALSE"@ {
        Token::Truth(false)
    } else if w == "LIKE"@ {
        Token::Sign(Op::Like)
    } else if w == "ANY"@ {
        Token::Function(Call::Any)
    } else if w == "ALL"@ {
        Token::Function(Call::All)
    } else if w == "TRUNC"@ {
        Token::Function(Call::Trunc)
    } else if w == "EXTRACT"@ {
        Token::Function(Call::Extract)
    } else if w == "now"@ {
        Token::Function(Call::Now)
    } else if w == "text"@ {
        Token::Cast
    } else {
        Token::Odd
    }
}

/// A word of signs.
pub open spec fn sign(w: Seq<char>) -> Token {
    if w == seq!['='] {
        Token::Sign(Op::Equal)
    } else if w == seq!['<', '>'] {
        Token::Sign(Op::Unequal)
    } else if w == seq!['>'] {
        Token::Sign(Op::Greater)
    } else if w == seq!['>', '='] {
        Token::Sign(Op::GreaterEqual)
    } else if w == seq!['<'] {
        Token::Sign(Op::Less)
    } else if w == seq!['<', '='] {
        Token::Sign(Op::LessEqual)
    } else if w == seq!['~'] {
        Token::Sign(Op::Match)
    } else if w == seq!['&', '&'] {
        Token::Sign(Op::Overlap)
    } else if w == seq!['-'] {
        Token::Sign(Op::Minus)
    } else if w == seq!['/'] {
        Token::Sign(Op::Over)
    } else if w == seq![':', ':'] {
        Token::Cast
    } else {
        Token::Odd
    }
}

pub open spec fn token(w: Seq<char>) -> Token {
    if w.len() == 0 {
        Token::Odd
    } else if class(w[0]) is Bracket {
        if w == seq!['('] {
            Token::Open
        } else if w == seq![')'] {
            Token::Close
        } else if w == seq!['['] || w == seq![']'] {
            Token::Cast
        } else {
            Token::Odd
        }
    } else if class(w[0]) is Sign {
        sign(w)
    } else if w[0] == '$' {
        if w.len() > 1 && all_digits(w.skip(1)) {
            Token::Param(digits_value(w.skip(1)))
        } else {
            Token::Odd
        }
    } else if '0' <= w[0] <= '9' {
        if all_digits(w) {
            Token::Number(digits_value(w))
        } else {
            Token::Odd
        }
    } else if w.len() > 3 && w[0] == 'm' && w[1] == 'f' && w[2] == '.' {
        Token::Column(w)
    } else {
        keyword(w)
    }
}

// ---------------------------------------------------------------------------
// Reading
// ---------------------------------------------------------------------------

/// What was read since a bracket was opened: the alternatives before the last
/// `OR`, the conditions before the last `AND`, and the comparison on the way.
pub struct Frame {
    pub call: Call,
    pub calling: Call,
    pub either: Option<SqlValue>,
    pub both: Option<SqlValue>,
    pub negated: bool,
    pub left: Option<SqlValue>,
    pub sign: Option<Op>,
    /// How far a test that begins with `IS` was read.
    pub is: Tense,
    pub epoch: bool,
}

pub enum Tense {
    Nothing,
    Is,
    IsNot,
    IsDistinct,
}

pub open spec fn opened(call: Call) -> Frame {
    Frame {
        call,
        calling: Call::Plain,
        either: None,
        both: None,
        negated: false,
        left: None,
        sign: None,
        is: Tense::Nothing,
        epoch: false,
    }
}

/// The condition that was read last, negated where `NOT` stands before it, with
/// those that `AND` puts before it.
pub open spec fn conjunction(t: Frame) -> SqlValue {
    let last = match t.left {
        Some(v) => if t.negated {
            not_value(v)
        } else {
            v
        },
        None => SqlValue::Odd,
    };
    match t.both {
        Some(b) => and_value(b, last),
        None => last,
    }
}

/// What was read, all in all.
pub open spec fn closed(t: Frame) -> SqlValue {
    match t.either {
        Some(e) => or_value(e, conjunction(t)),
        None => conjunction(t),
    }
}

/// What a closed bracket stands for.
pub open spec fn called(t: Frame, at: Setting) -> SqlValue {
    match t.call {
        Call::Plain => closed(t),
        Call::Trunc => truncated(closed(t)),
        Call::Extract => if t.epoch {
            seconds_of(closed(t))
        } else {
            SqlValue::Odd
        },
        Call::Now => if t.left is None {
            SqlValue::Instant(at.now.instant())
        } else {
            SqlValue::Odd
        },
        Call::Any => match closed(t) {
            SqlValue::List(l) => SqlValue::Each(l),
            _ => SqlValue::Odd,
        },
        Call::All => match closed(t) {
            SqlValue::List(l) => SqlValue::Every(l),
            _ => SqlValue::Odd,
        },
    }
}

/// A value was read.
pub open spec fn operand(t: Frame, v: SqlValue, at: Setting) -> Frame {
    Frame {
        left: Some(
            match (t.left, t.sign) {
                (None, None) => v,
                (Some(l), Some(op)) => applied(op, l, v, at),
                _ => SqlValue::Odd,
            },
        ),
        sign: None,
        ..t
    }
}

/// What a word other than a bracket does.
pub open spec fn word_read(t: Frame, w: Token, at: Setting) -> Frame {
    match w {
        Token::Function(call) => Frame { calling: call, ..t },
        Token::And => Frame { both: Some(conjunction(t)), negated: false, left: None, ..t },
        Token::Or => Frame {
            either: Some(closed(t)),
            both: None,
            negated: false,
            left: None,
            ..t
        },
        Token::Not => if t.is is Is {
            Frame { is: Tense::IsNot, ..t }
        } else {
            Frame { negated: !t.negated, ..t }
        },
        Token::Is => Frame { is: Tense::Is, ..t },
        Token::Null => match (t.is, t.left) {
            (Tense::Is, Some(v)) => Frame {
                left: Some(SqlValue::Bool(v is Null)),
                is: Tense::Nothing,
                ..t
            },
            (Tense::IsNot, Some(v)) => Frame {
                left: Some(SqlValue::Bool(!(v is Null))),
                is: Tense::Nothing,
                ..t
            },
            _ => operand(t, SqlValue::Null, at),
        },
        Token::Distinct => Frame { is: Tense::IsDistinct, ..t },
        Token::From => if t.is is IsDistinct {
            Frame { sign: Some(Op::Distinct), is: Tense::Nothing, ..t }
        } else {
            t
        },
        Token::Epoch => Frame { epoch: true, ..t },
        Token::Truth(b) => operand(t, SqlValue::Bool(b), at),
        Token::Sign(op) => Frame { sign: Some(op), ..t },
        Token::Column(name) => operand(t, column(name, at), at),
        Token::Param(n) => operand(
            t,
            if 1 <= n <= at.params.len() {
                bound(at.params[n - 1])
            } else {
                SqlValue::Odd
            },
            at,
        ),
        Token::Number(n) => operand(t, SqlValue::Int(n as int), at),
        Token::Cast => t,
        Token::Open | Token::Close | Token::Odd => Frame { left: Some(SqlValue::Odd), ..t },
    }
}

/// What a word does to the frames, the innermost of which is the last.
pub open spec fn step(frames: Seq<Frame>, w: Token, at: Setting) -> Seq<Frame> {
    let t = frames.last();
    let outer = frames.drop_last();
    match w {
        Token::Open => outer.push(Frame { calling: Call::Plain, ..t }).push(opened(t.calling)),
        Token::Close => if outer.len() > 0 {
            outer.drop_last().push(operand(outer.last(), called(t, at), at))
        } else {
            outer.push(Frame { left: Some(SqlValue::Odd), ..t })
        },
        _ => outer.push(word_read(t, w, at)),
    }
}

/// The frames after some words.
pub open spec fn read(frames: Seq<Frame>, ws: Seq<Seq<char>>, at: Setting) -> Seq<Frame>
    decreases ws.len(),
{
    if ws.len() == 0 {
        frames
    } else {
        step(read(frames, ws.drop_last(), at), token(ws.last()), at)
    }
}

/// The value of a text.
pub open spec fn value_of(text: Seq<char>, at: Setting) -> SqlValue {
    let frames = read(seq![opened(Call::Plain)], words(text), at);
    if frames.len() == 1 {
        closed(frames[0])
    } else {
        SqlValue::Odd
    }
}

/// The clause with this text selects the row.
pub open spec fn text_selects(text: Seq<char>, at: Setting) -> bool {
    is_true(value_of(text, at))
}

} // verus!
