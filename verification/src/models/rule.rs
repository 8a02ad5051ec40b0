//! The rule tree: an OR of AND-groups.
//!
//! A rule that grants on no relation and has no groups matches nobody.
//! `grant_on_any_relation` grants to every customer of the connected account.
use vstd::prelude::*;
use crate::models::condition::{Condition, ConditionModel};

verus! {

/// Maximum of groups in a tree.
pub const MAX_GROUPS: usize = 8;

/// Maximum of conditions in a group.
pub const MAX_CONDITIONS_PER_GROUP: usize = 12;

#[derive(Debug)]
pub struct RuleTree {
    pub grant_on_any_relation: bool,
    pub groups: Vec<ConditionGroup>,
}

#[derive(Debug)]
pub struct ConditionGroup {
    pub conditions: Vec<Condition>,
}

pub struct RuleModel {
    pub grant_on_any_relation: bool,
    pub groups: Seq<Seq<ConditionModel>>,
}

impl View for ConditionGroup {
    type V = Seq<ConditionModel>;

    open spec fn view(&self) -> Seq<ConditionModel> {
        self.conditions@.map_values(|c: Condition| c@)
    }
}

impl View for RuleTree {
    type V = RuleModel;

    open spec fn view(&self) -> RuleModel {
        RuleModel {
            grant_on_any_relation: self.grant_on_any_relation,
            groups: self.groups@.map_values(|g: ConditionGroup| g@),
        }
    }
}

/// The rule of a role link that nobody has configured.
pub open spec fn unconfigured() -> RuleModel {
    RuleModel { grant_on_any_relation: false, groups: Seq::empty() }
}

impl Default for RuleTree {
    fn default() -> (r: RuleTree)
        ensures
            r@ == unconfigured(),
    {
        let r = RuleTree { grant_on_any_relation: false, groups: Vec::new() };
        assert(r@.groups =~= Seq::empty());
        r
    }
}

impl Default for ConditionGroup {
    fn default() -> (r: ConditionGroup)
        ensures
            r@ == Seq::<ConditionModel>::empty(),
    {
        let r = ConditionGroup { conditions: Vec::new() };
        assert(r@ =~= Seq::empty());
        r
    }
}

} // verus!
