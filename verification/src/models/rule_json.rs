//! The stored form of a rule.
//!
//! A rule is stored as a JSON object with the fields of `RuleTree`. What cannot
//! be read back as a rule stands for the unconfigured one, which admits nobody.
use vstd::prelude::*;
use crate::decode::{field_of, is_record, viewed};
use crate::json::{
    entries_model, entry_value, found, items_model, lemma_items_model_push, put, text_value, Json,
    JsonValue,
};
use crate::models::condition::{
    operator_key, operator_keys_are_distinct, target_key, target_keys_are_distinct, Condition,
    ConditionModel, ConditionOperator, ConditionTarget,
};
use crate::models::rule::{unconfigured, ConditionGroup, RuleModel, RuleTree};

verus! {

// ---------------------------------------------------------------------------
// Reading
// ---------------------------------------------------------------------------

/// The key that a field holds: a string, or an object whose one member has that
/// name and is null.
pub open spec fn key_field(f: Option<Json>) -> Option<Seq<char>> {
    match f {
        Some(Json::Str(s)) => Some(s),
        Some(Json::Object(entries)) => if entries.len() == 1 && entries[0].1 is Null {
            Some(entries[0].0)
        } else {
            None
        },
        _ => None,
    }
}

/// The target stored under a key.
pub open spec fn target_named(key: Option<Seq<char>>) -> Option<ConditionTarget> {
    if exists|t: ConditionTarget| Some(#[trigger] target_key(t)) == key {
        Some(choose|t: ConditionTarget| Some(#[trigger] target_key(t)) == key)
    } else {
        None
    }
}

/// The operator stored under a key.
pub open spec fn operator_named(key: Option<Seq<char>>) -> Option<ConditionOperator> {
    if exists|op: ConditionOperator| Some(#[trigger] operator_key(op)) == key {
        Some(choose|op: ConditionOperator| Some(#[trigger] operator_key(op)) == key)
    } else {
        None
    }
}

/// A value that may be missing; null stands for a missing one.
pub open spec fn optional_value(f: Option<Json>) -> Option<Json> {
    match f {
        Some(Json::Null) => None,
        _ => f,
    }
}

/// The condition of a document.
pub open spec fn condition_of(j: Json) -> Option<ConditionModel> {
    let target = target_named(key_field(field_of(j, "target"@, 0)));
    let operator = operator_named(key_field(field_of(j, "operator"@, 1)));
    let value = field_of(j, "value"@, 2);
    if is_record(j, 4) && target is Some && operator is Some && value is Some {
        Some(
            ConditionModel {
                target: target->0,
                operator: operator->0,
                value: value->0,
                value_end: optional_value(field_of(j, "value_end"@, 3)),
            },
        )
    } else {
        None
    }
}

/// The conditions of a list of documents.
pub open spec fn conditions_of(items: Seq<Json>) -> Option<Seq<ConditionModel>>
    decreases items.len(),
{
    if items.len() == 0 {
        Some(Seq::empty())
    } else {
        match (conditions_of(items.drop_last()), condition_of(items.last())) {
            (Some(cs), Some(c)) => Some(cs.push(c)),
            _ => None,
        }
    }
}

/// The group of a document.
pub open spec fn group_of(j: Json) -> Option<Seq<ConditionModel>> {
    if !is_record(j, 1) {
        None
    } else {
        match field_of(j, "conditions"@, 0) {
            None => Some(Seq::empty()),
            Some(Json::Array(items)) => conditions_of(items),
            _ => None,
        }
    }
}

/// The groups of a list of documents.
pub open spec fn groups_of(items: Seq<Json>) -> Option<Seq<Seq<ConditionModel>>>
    decreases items.len(),
{
    if items.len() == 0 {
        Some(Seq::empty())
    } else {
        match (groups_of(items.drop_last()), group_of(items.last())) {
            (Some(gs), Some(g)) => Some(gs.push(g)),
            _ => None,
        }
    }
}

/// A boolean; false where the field is missing.
pub open spec fn flag_field(f: Option<Json>) -> Option<bool> {
    match f {
        None => Some(false),
        Some(Json::Bool(b)) => Some(b),
        _ => None,
    }
}

pub open spec fn groups_field(f: Option<Json>) -> Option<Seq<Seq<ConditionModel>>> {
    match f {
        None => Some(Seq::empty()),
        Some(Json::Array(items)) => groups_of(items),
        _ => None,
    }
}

/// The rule of a document.
pub open spec fn rule_of(j: Json) -> Option<RuleModel> {
    let grant = flag_field(field_of(j, "grant_on_any_relation"@, 0));
    let groups = groups_field(field_of(j, "groups"@, 1));
    if is_record(j, 2) && grant is Some && groups is Some {
        Some(RuleModel { grant_on_any_relation: grant->0, groups: groups->0 })
    } else {
        None
    }
}

/// The rule that a stored document stands for.
pub open spec fn stored_rule(j: Json) -> RuleModel {
    match rule_of(j) {
        Some(r) => r,
        None => unconfigured(),
    }
}

fn read_key(f: Option<&JsonValue>) -> (r: Option<&str>)
    ensures
        match r {
            Some(s) => key_field(found(f)) == Some(s@),
            None => key_field(found(f)) is None,
        },
{
    match f {
        Some(v) => match v {
            JsonValue::Str(s) => Some(s.as_str()),
            JsonValue::Object(entries) => {
                if entries.len() == 1 {
                    assert(entries_model(entries@)[0] == (entries@[0].0@, entries@[0].1@));
                    match &entries[0].1 {
                        JsonValue::Null => Some(entries[0].0.as_str()),
                        _ => None,
                    }
                } else {
                    None
                }
            },
            _ => None,
        },
        None => None,
    }
}

proof fn lemma_target_named(t: ConditionTarget)
    ensures
        target_named(Some(target_key(t))) == Some(t),
{
    let u = choose|u: ConditionTarget| Some(#[trigger] target_key(u)) == Some(target_key(t));
    assert(Some(target_key(t)) == Some(target_key(t)));
    target_keys_are_distinct(u, t);
}

proof fn lemma_operator_named(op: ConditionOperator)
    ensures
        operator_named(Some(operator_key(op))) == Some(op),
{
    let u = choose|u: ConditionOperator| Some(#[trigger] operator_key(u)) == Some(
        operator_key(op),
    );
    assert(Some(operator_key(op)) == Some(operator_key(op)));
    operator_keys_are_distinct(u, op);
}

fn read_condition(v: &JsonValue) -> (r: Option<Condition>)
    ensures
        viewed(r) == condition_of(v@),
{
    if !v.is_record(4) {
        return None;
    }
    let target = match read_key(v.field("target", 0)) {
        Some(key) => match ConditionTarget::from_key(key) {
            Some(t) => {
                proof {
                    lemma_target_named(t);
                }
                t
            },
            None => return None,
        },
        None => return None,
    };
    let operator = match read_key(v.field("operator", 1)) {
        Some(key) => match ConditionOperator::from_key(key) {
            Some(op) => {
                proof {
                    lemma_operator_named(op);
                }
                op
            },
            None => return None,
        },
        None => return None,
    };
    let value = match v.field("value", 2) {
        Some(x) => x.copy(),
        None => return None,
    };
    let value_end = match v.field("value_end", 3) {
        Some(x) => match x {
            JsonValue::Null => None,
            _ => Some(x.copy()),
        },
        None => None,
    };
    Some(Condition { target, operator, value, value_end })
}

proof fn lemma_conditions_prefix(items: Seq<Json>, k: int)
    requires
        0 <= k <= items.len(),
        conditions_of(items.take(k)) is None,
    ensures
        conditions_of(items) is None,
    decreases items.len() - k,
{
    if k < items.len() {
        assert(items.take(k + 1).drop_last() =~= items.take(k));
        lemma_conditions_prefix(items, k + 1);
    } else {
        assert(items.take(k) =~= items);
    }
}

proof fn lemma_groups_prefix(items: Seq<Json>, k: int)
    requires
        0 <= k <= items.len(),
        groups_of(items.take(k)) is None,
    ensures
        groups_of(items) is None,
    decreases items.len() - k,
{
    if k < items.len() {
        assert(items.take(k + 1).drop_last() =~= items.take(k));
        lemma_groups_prefix(items, k + 1);
    } else {
        assert(items.take(k) =~= items);
    }
}

fn read_group(v: &JsonValue) -> (r: Option<ConditionGroup>)
    ensures
        viewed(r) == group_of(v@),
{
    if !v.is_record(1) {
        return None;
    }
    let mut conditions: Vec<Condition> = Vec::new();
    match v.field("conditions", 0) {
        None => {},
        Some(list) => match list {
            JsonValue::Array(items) => {
                let ghost model = items_model(items@);
                let mut i: usize = 0;
                proof {
                    assert(model.take(0) =~= Seq::empty());
                    assert(conditions@.map_values(|c: Condition| c@) =~= Seq::empty());
                }
                while i < items.len()
                    invariant
                        is_record(v@, 1),
                        field_of(v@, "conditions"@, 0) == Some(Json::Array(model)),
                        model == items_model(items@),
                        i <= items.len(),
                        conditions_of(model.take(i as int)) == Some(
                            conditions@.map_values(|c: Condition| c@),
                        ),
                    decreases items.len() - i,
                {
                    let ghost next = model.take(i + 1);
                    proof {
                        assert(next.drop_last() =~= model.take(i as int));
                        assert(next.last() == items@[i as int]@);
                    }
                    match read_condition(&items[i]) {
                        Some(c) => {
                            proof {
                                assert(conditions@.push(c).map_values(|c: Condition| c@)
                                    =~= conditions@.map_values(|c: Condition| c@).push(c@));
                            }
                            conditions.push(c);
                        },
                        None => {
                            proof {
                                lemma_conditions_prefix(model, i + 1);
                            }
                            return None;
                        },
                    }
                    i = i + 1;
                }
                assert(model.take(i as int) =~= model);
            },
            _ => return None,
        },
    }
    let g = ConditionGroup { conditions };
    proof {
        if field_of(v@, "conditions"@, 0) is None {
            assert(g@ =~= Seq::empty());
        }
    }
    Some(g)
}

/// Reads a rule.
pub fn rule_tree_from_json(v: &JsonValue) -> (r: Option<RuleTree>)
    ensures
        viewed(r) == rule_of(v@),
{
    if !v.is_record(2) {
        return None;
    }
    let grant = match v.field("grant_on_any_relation", 0) {
        None => false,
        Some(b) => match b {
            JsonValue::Bool(b) => *b,
            _ => return None,
        },
    };
    let mut groups: Vec<ConditionGroup> = Vec::new();
    match v.field("groups", 1) {
        None => {},
        Some(list) => match list {
            JsonValue::Array(items) => {
                let ghost model = items_model(items@);
                let mut i: usize = 0;
                proof {
                    assert(model.take(0) =~= Seq::empty());
                    assert(groups@.map_values(|g: ConditionGroup| g@) =~= Seq::empty());
                }
                while i < items.len()
                    invariant
                        is_record(v@, 2),
                        field_of(v@, "groups"@, 1) == Some(Json::Array(model)),
                        model == items_model(items@),
                        i <= items.len(),
                        groups_of(model.take(i as int)) == Some(
                            groups@.map_values(|g: ConditionGroup| g@),
                        ),
                    decreases items.len() - i,
                {
                    let ghost next = model.take(i + 1);
                    proof {
                        assert(next.drop_last() =~= model.take(i as int));
                        assert(next.last() == items@[i as int]@);
                    }
                    match read_group(&items[i]) {
                        Some(g) => {
                            proof {
                                assert(groups@.push(g).map_values(|g: ConditionGroup| g@)
                                    =~= groups@.map_values(|g: ConditionGroup| g@).push(g@));
                            }
                            groups.push(g);
                        },
                        None => {
                            proof {
                                lemma_groups_prefix(model, i + 1);
                            }
                            return None;
                        },
                    }
                    i = i + 1;
                }
                assert(model.take(i as int) =~= model);
            },
            _ => return None,
        },
    }
    let t = RuleTree { grant_on_any_relation: grant, groups };
    proof {
        if field_of(v@, "groups"@, 1) is None {
            assert(t@.groups =~= Seq::empty());
        }
    }
    Some(t)
}

/// The rule that a stored document stands for.
pub fn stored_rule_tree(v: &JsonValue) -> (r: RuleTree)
    ensures
        r@ == stored_rule(v@),
{
    match rule_tree_from_json(v) {
        Some(t) => t,
        None => RuleTree::default(),
    }
}

// ---------------------------------------------------------------------------
// Writing
// ---------------------------------------------------------------------------

/// The document of a condition. The upper bound stands in it where there is
/// one.
pub open spec fn condition_json(c: ConditionModel) -> Json {
    let entries = seq![
        ("target"@, Json::Str(target_key(c.target))),
        ("operator"@, Json::Str(operator_key(c.operator))),
        ("value"@, c.value),
    ];
    Json::Object(
        match c.value_end {
            Some(end) => entries.push(("value_end"@, end)),
            None => entries,
        },
    )
}

/// The document of a group.
pub open spec fn group_json(g: Seq<ConditionModel>) -> Json {
    Json::Object(
        seq![("conditions"@, Json::Array(g.map_values(|c: ConditionModel| condition_json(c))))],
    )
}

/// The documents of the groups.
pub open spec fn groups_json(gs: Seq<Seq<ConditionModel>>) -> Json {
    Json::Array(gs.map_values(|g: Seq<ConditionModel>| group_json(g)))
}

/// The document of a rule.
pub open spec fn rule_json(r: RuleModel) -> Json {
    Json::Object(
        seq![
            ("grant_on_any_relation"@, Json::Bool(r.grant_on_any_relation)),
            ("groups"@, groups_json(r.groups)),
        ],
    )
}

fn write_condition(c: &Condition) -> (r: JsonValue)
    ensures
        r@ == condition_json(c@),
{
    let mut entries: Vec<(String, JsonValue)> = Vec::new();
    proof {
        assert(entries_model(entries@) =~= Seq::empty());
    }
    put(&mut entries, "target", text_value(c.target.as_str()));
    put(&mut entries, "operator", text_value(c.operator.as_str()));
    put(&mut entries, "value", c.value.copy());
    proof {
        assert(entries_model(entries@) =~= seq![
            ("target"@, Json::Str(target_key(c.target))),
            ("operator"@, Json::Str(operator_key(c.operator))),
            ("value"@, c.value@),
        ]);
    }
    match &c.value_end {
        Some(end) => put(&mut entries, "value_end", end.copy()),
        None => {},
    }
    JsonValue::Object(entries)
}

fn write_group(g: &ConditionGroup) -> (r: JsonValue)
    ensures
        r@ == group_json(g@),
{
    let mut items: Vec<JsonValue> = Vec::new();
    let mut i: usize = 0;
    while i < g.conditions.len()
        invariant
            i <= g.conditions.len(),
            items_model(items@) =~= g@.take(i as int).map_values(
                |c: ConditionModel| condition_json(c),
            ),
        decreases g.conditions.len() - i,
    {
        let item = write_condition(&g.conditions[i]);
        proof {
            lemma_items_model_push(items@, item);
            assert(g@.take(i + 1) =~= g@.take(i as int).push(g@[i as int]));
        }
        items.push(item);
        i = i + 1;
    }
    proof {
        assert(g@.take(i as int) =~= g@);
    }
    let mut entries: Vec<(String, JsonValue)> = Vec::new();
    proof {
        assert(entries_model(entries@) =~= Seq::empty());
    }
    put(&mut entries, "conditions", JsonValue::Array(items));
    proof {
        assert(entries_model(entries@) =~= seq![
            (
                "conditions"@,
                Json::Array(g@.map_values(|c: ConditionModel| condition_json(c))),
            ),
        ]);
    }
    JsonValue::Object(entries)
}

/// Writes the groups of a rule.
pub fn groups_to_json(tree: &RuleTree) -> (r: JsonValue)
    ensures
        r@ == groups_json(tree@.groups),
{
    let mut items: Vec<JsonValue> = Vec::new();
    let mut i: usize = 0;
    while i < tree.groups.len()
        invariant
            i <= tree.groups.len(),
            items_model(items@) =~= tree@.groups.take(i as int).map_values(
                |g: Seq<ConditionModel>| group_json(g),
            ),
        decreases tree.groups.len() - i,
    {
        let item = write_group(&tree.groups[i]);
        proof {
            lemma_items_model_push(items@, item);
            assert(tree@.groups.take(i + 1) =~= tree@.groups.take(i as int).push(
                tree@.groups[i as int],
            ));
        }
        items.push(item);
        i = i + 1;
    }
    proof {
        assert(tree@.groups.take(i as int) =~= tree@.groups);
    }
    JsonValue::Array(items)
}

/// Writes a rule.
pub fn rule_tree_to_json(tree: &RuleTree) -> (r: JsonValue)
    ensures
        r@ == rule_json(tree@),
{
    let mut entries: Vec<(String, JsonValue)> = Vec::new();
    proof {
        assert(entries_model(entries@) =~= Seq::empty());
    }
    put(&mut entries, "grant_on_any_relation", JsonValue::Bool(tree.grant_on_any_relation));
    put(&mut entries, "groups", groups_to_json(tree));
    proof {
        assert(entries_model(entries@) =~= seq![
            ("grant_on_any_relation"@, Json::Bool(tree@.grant_on_any_relation)),
            ("groups"@, groups_json(tree@.groups)),
        ]);
    }
    JsonValue::Object(entries)
}

// ---------------------------------------------------------------------------
// What was written reads back
// ---------------------------------------------------------------------------

/// The upper bound of a condition is not null. A null one would be read as a
/// missing one.
pub open spec fn bound_not_null(c: ConditionModel) -> bool {
    !(c.value_end matches Some(Json::Null))
}

proof fn lemma_condition_reads_back(c: ConditionModel)
    requires
        bound_not_null(c),
    ensures
        condition_of(condition_json(c)) == Some(c),
{
    reveal_strlit("target");
    assert("target"@.len() == 6);
    reveal_strlit("operator");
    assert("operator"@.len() == 8);
    reveal_strlit("value");
    assert("value"@.len() == 5);
    reveal_strlit("value_end");
    assert("value_end"@.len() == 9);
    lemma_target_named(c.target);
    lemma_operator_named(c.operator);
    let j = condition_json(c);
    let entries = j->Object_0;
    let e1 = entries.drop_first();
    let e2 = e1.drop_first();
    let e3 = e2.drop_first();
    assert(entry_value(entries, "target"@) == Some(Json::Str(target_key(c.target))));
    assert(e1.first() == ("operator"@, Json::Str(operator_key(c.operator))));
    assert(entry_value(e1, "operator"@) == Some(Json::Str(operator_key(c.operator))));
    assert(entry_value(entries, "operator"@) == entry_value(e1, "operator"@));
    assert(e2.first() == ("value"@, c.value));
    assert(entry_value(e2, "value"@) == Some(c.value));
    assert(entry_value(e1, "value"@) == entry_value(e2, "value"@));
    assert(entry_value(entries, "value"@) == entry_value(e1, "value"@));
    assert(entry_value(e2, "value_end"@) == entry_value(e3, "value_end"@));
    assert(entry_value(e1, "value_end"@) == entry_value(e2, "value_end"@));
    assert(entry_value(entries, "value_end"@) == entry_value(e1, "value_end"@));
    match c.value_end {
        Some(end) => {
            assert(e3.first() == ("value_end"@, end));
            assert(entry_value(e3, "value_end"@) == Some(end));
        },
        None => {
            assert(e3.len() == 0);
        },
    }
    assert(condition_of(j)->0 == c);
}

proof fn lemma_group_reads_back(g: Seq<ConditionModel>)
    requires
        forall|k: int| 0 <= k < g.len() ==> bound_not_null(#[trigger] g[k]),
    ensures
        group_of(group_json(g)) == Some(g),
{
    let items = g.map_values(|c: ConditionModel| condition_json(c));
    assert(group_json(g)->Object_0.first() == ("conditions"@, Json::Array(items)));
    assert(field_of(group_json(g), "conditions"@, 0) == Some(Json::Array(items)));
    lemma_conditions_read_back(g);
}

proof fn lemma_conditions_read_back(g: Seq<ConditionModel>)
    requires
        forall|k: int| 0 <= k < g.len() ==> bound_not_null(#[trigger] g[k]),
    ensures
        conditions_of(g.map_values(|c: ConditionModel| condition_json(c))) == Some(g),
    decreases g.len(),
{
    let items = g.map_values(|c: ConditionModel| condition_json(c));
    if g.len() == 0 {
        assert(g =~= Seq::empty());
    } else {
        lemma_conditions_read_back(g.drop_last());
        assert(items.drop_last() =~= g.drop_last().map_values(
            |c: ConditionModel| condition_json(c),
        ));
        assert(bound_not_null(g[g.len() - 1]));
        lemma_condition_reads_back(g.last());
        assert(items.last() == condition_json(g.last()));
        assert(g.drop_last().push(g.last()) =~= g);
    }
}

proof fn lemma_groups_read_back(gs: Seq<Seq<ConditionModel>>)
    requires
        forall|i: int, k: int|
            0 <= i < gs.len() && 0 <= k < gs[i].len() ==> bound_not_null(#[trigger] gs[i][k]),
    ensures
        groups_of(gs.map_values(|g: Seq<ConditionModel>| group_json(g))) == Some(gs),
    decreases gs.len(),
{
    let items = gs.map_values(|g: Seq<ConditionModel>| group_json(g));
    if gs.len() == 0 {
        assert(gs =~= Seq::empty());
    } else {
        let before = gs.drop_last();
        assert forall|i: int, k: int|
            0 <= i < before.len() && 0 <= k < before[i].len() implies bound_not_null(
            #[trigger] before[i][k],
        ) by {
            assert(before[i][k] == gs[i][k]);
        }
        lemma_groups_read_back(before);
        assert(items.drop_last() =~= before.map_values(|g: Seq<ConditionModel>| group_json(g)));
        let last = gs.last();
        assert forall|k: int| 0 <= k < last.len() implies bound_not_null(#[trigger] last[k]) by {
            assert(last[k] == gs[gs.len() - 1][k]);
        }
        lemma_group_reads_back(last);
        assert(items.last() == group_json(last));
        assert(before.push(last) =~= gs);
    }
}

/// A rule that was stored is the rule that is read, as long as no upper bound is
/// null.
pub proof fn stored_rule_reads_back(r: RuleModel)
    requires
        forall|i: int, k: int|
            0 <= i < r.groups.len() && 0 <= k < r.groups[i].len() ==> bound_not_null(
                #[trigger] r.groups[i][k],
            ),
    ensures
        rule_of(rule_json(r)) == Some(r),
        stored_rule(rule_json(r)) == r,
{
    reveal_strlit("grant_on_any_relation");
    assert("grant_on_any_relation"@.len() == 21);
    reveal_strlit("groups");
    assert("groups"@.len() == 6);
    let j = rule_json(r);
    let entries = j->Object_0;
    let e1 = entries.drop_first();
    assert(e1.first() == ("groups"@, groups_json(r.groups)));
    assert(entry_value(e1, "groups"@) == Some(groups_json(r.groups)));
    assert(entry_value(entries, "groups"@) == entry_value(e1, "groups"@));
    assert(entry_value(entries, "grant_on_any_relation"@) == Some(
        Json::Bool(r.grant_on_any_relation),
    ));
    lemma_groups_read_back(r.groups);
    assert(rule_of(j)->0 == r);
}

} // verus!
