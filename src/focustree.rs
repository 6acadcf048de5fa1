//! National focus trees and their focuses.
use crate::coerce::view_strings;
use crate::projection::{
    all_where, last_bool, last_int, last_members, last_strings, last_text, last_where,
    lemma_empty_table, lemma_step, members, record_unknown, unknown_where, view_option, view_table,
};
use crate::table::Table;
use crate::text::same_text;
use crate::value::{
    lemma_view_pairs_index, lemma_view_pairs_len, lemma_view_values_push, view_pairs, view_values,
    ConfigPair, ConfigValue, SpecPair, SpecValue,
};
use vstd::prelude::*;

verus! {

// ---------------------------------------------------------------------------
// Focus
// ---------------------------------------------------------------------------

#[derive(Clone, Copy, Debug, PartialEq, Eq, Structural)]
pub enum FocusField {
    Id,
    Icon,
    X,
    Y,
    Cost,
    Available,
    AiWillDo,
    Bypass,
    CompletionReward,
    SearchFilters,
    AvailableIfCapitulated,
    ContinueIfInvalid,
    CancelIfInvalid,
    RelativePositionId,
    Prerequisite,
    AllowBranch,
    Offset,
    MutuallyExclusive,
    CompleteTooltip,
    WillLeadToWarWith,
    Cancel,
    Dynamic,
    SelectEffect,
    Text,
    HistoricalAi,
    Cancelable,
}

/// The field that an identifier sets in a record of this kind; identifiers are
/// compared with their case.
pub open spec fn focus_field(id: Seq<char>) -> Option<FocusField> {
    if id == "id"@ {
        Some(FocusField::Id)
    } else if id == "icon"@ {
        Some(FocusField::Icon)
    } else if id == "x"@ {
        Some(FocusField::X)
    } else if id == "y"@ {
        Some(FocusField::Y)
    } else if id == "cost"@ {
        Some(FocusField::Cost)
    } else if id == "available"@ {
        Some(FocusField::Available)
    } else if id == "ai_will_do"@ {
        Some(FocusField::AiWillDo)
    } else if id == "bypass"@ || id == "Bypass"@ {
        Some(FocusField::Bypass)
    } else if id == "completion_reward"@ {
        Some(FocusField::CompletionReward)
    } else if id == "search_filters"@ {
        Some(FocusField::SearchFilters)
    } else if id == "available_if_capitulated"@ {
        Some(FocusField::AvailableIfCapitulated)
    } else if id == "continue_if_invalid"@ {
        Some(FocusField::ContinueIfInvalid)
    } else if id == "cancel_if_invalid"@ {
        Some(FocusField::CancelIfInvalid)
    } else if id == "relative_position_id"@ {
        Some(FocusField::RelativePositionId)
    } else if id == "prerequisite"@ {
        Some(FocusField::Prerequisite)
    } else if id == "allow_branch"@ {
        Some(FocusField::AllowBranch)
    } else if id == "offset"@ {
        Some(FocusField::Offset)
    } else if id == "mutually_exclusive"@ {
        Some(FocusField::MutuallyExclusive)
    } else if id == "complete_tooltip"@ {
        Some(FocusField::CompleteTooltip)
    } else if id == "will_lead_to_war_with"@ {
        Some(FocusField::WillLeadToWarWith)
    } else if id == "cancel"@ {
        Some(FocusField::Cancel)
    } else if id == "dynamic"@ {
        Some(FocusField::Dynamic)
    } else if id == "select_effect"@ {
        Some(FocusField::SelectEffect)
    } else if id == "text"@ {
        Some(FocusField::Text)
    } else if id == "historical_ai"@ {
        Some(FocusField::HistoricalAi)
    } else if id == "cancelable"@ {
        Some(FocusField::Cancelable)
    } else {
        None
    }
}

pub open spec fn focus_is(f: FocusField) -> spec_fn(Seq<char>) -> bool {
    |id: Seq<char>| focus_field(id) == Some(f)
}

pub open spec fn focus_known() -> spec_fn(Seq<char>) -> bool {
    |id: Seq<char>| focus_field(id) is Some
}

fn focus_field_of(id: &str) -> (r: Option<FocusField>)
    ensures
        r == focus_field(id@),
{
    if same_text(id, "id") {
        Some(FocusField::Id)
    } else if same_text(id, "icon") {
        Some(FocusField::Icon)
    } else if same_text(id, "x") {
        Some(FocusField::X)
    } else if same_text(id, "y") {
        Some(FocusField::Y)
    } else if same_text(id, "cost") {
        Some(FocusField::Cost)
    } else if same_text(id, "available") {
        Some(FocusField::Available)
    } else if same_text(id, "ai_will_do") {
        Some(FocusField::AiWillDo)
    } else if same_text(id, "bypass") || same_text(id, "Bypass") {
        Some(FocusField::Bypass)
    } else if same_text(id, "completion_reward") {
        Some(FocusField::CompletionReward)
    } else if same_text(id, "search_filters") {
        Some(FocusField::SearchFilters)
    } else if same_text(id, "available_if_capitulated") {
        Some(FocusField::AvailableIfCapitulated)
    } else if same_text(id, "continue_if_invalid") {
        Some(FocusField::ContinueIfInvalid)
    } else if same_text(id, "cancel_if_invalid") {
        Some(FocusField::CancelIfInvalid)
    } else if same_text(id, "relative_position_id") {
        Some(FocusField::RelativePositionId)
    } else if same_text(id, "prerequisite") {
        Some(FocusField::Prerequisite)
    } else if same_text(id, "allow_branch") {
        Some(FocusField::AllowBranch)
    } else if same_text(id, "offset") {
        Some(FocusField::Offset)
    } else if same_text(id, "mutually_exclusive") {
        Some(FocusField::MutuallyExclusive)
    } else if same_text(id, "complete_tooltip") {
        Some(FocusField::CompleteTooltip)
    } else if same_text(id, "will_lead_to_war_with") {
        Some(FocusField::WillLeadToWarWith)
    } else if same_text(id, "cancel") {
        Some(FocusField::Cancel)
    } else if same_text(id, "dynamic") {
        Some(FocusField::Dynamic)
    } else if same_text(id, "select_effect") {
        Some(FocusField::SelectEffect)
    } else if same_text(id, "text") {
        Some(FocusField::Text)
    } else if same_text(id, "historical_ai") {
        Some(FocusField::HistoricalAi)
    } else if same_text(id, "cancelable") {
        Some(FocusField::Cancelable)
    } else {
        None
    }
}

#[derive(Debug)]
pub struct Focus {
    pub id: String,
    pub icon: String,
    pub x: i32,
    pub y: i32,
    pub cost: u8,
    pub available: Option<ConfigValue>,
    pub ai_will_do: Option<ConfigValue>,
    pub bypass: Option<ConfigValue>,
    pub completion_reward: Option<ConfigValue>,
    pub search_filters: Vec<String>,
    pub available_if_capitulated: bool,
    pub continue_if_invalid: bool,
    pub cancel_if_invalid: bool,
    pub relative_position_id: String,
    pub prerequisite: Option<ConfigValue>,
    pub allow_branch: Option<ConfigValue>,
    pub offset: Option<ConfigValue>,
    pub mutually_exclusive: Option<ConfigValue>,
    pub complete_tooltip: Option<ConfigValue>,
    pub will_lead_to_war_with: String,
    pub cancel: Option<ConfigValue>,
    pub dynamic: bool,
    pub select_effect: Vec<ConfigValue>,
    pub text: String,
    pub historical_ai: Vec<ConfigValue>,
    pub cancelable: bool,
    /// The last value of each identifier that no field takes.
    pub unknown: Table<ConfigValue>,
}

impl Focus {
    /// The record that the pairs `ps` describe: a field fed by one pair takes the
    /// last such pair; a list takes every such pair, in order.
    pub open spec fn projects(self, ps: Seq<SpecPair>) -> bool {
        &&& self.id@ == last_text(ps, focus_is(FocusField::Id))
        &&& self.icon@ == last_text(ps, focus_is(FocusField::Icon))
        &&& self.x as int == last_int(ps, focus_is(FocusField::X), i32::MIN as int, i32::MAX as int)
        &&& self.y as int == last_int(ps, focus_is(FocusField::Y), i32::MIN as int, i32::MAX as int)
        &&& self.cost as int == last_int(ps, focus_is(FocusField::Cost), 0, u8::MAX as int)
        &&& view_option(self.available) == last_where(ps, focus_is(FocusField::Available))
        &&& view_option(self.ai_will_do) == last_where(ps, focus_is(FocusField::AiWillDo))
        &&& view_option(self.bypass) == last_where(ps, focus_is(FocusField::Bypass))
        &&& view_option(self.completion_reward)
            == last_where(ps, focus_is(FocusField::CompletionReward))
        &&& view_strings(self.search_filters@)
            == last_strings(ps, focus_is(FocusField::SearchFilters))
        &&& self.available_if_capitulated
            == last_bool(ps, focus_is(FocusField::AvailableIfCapitulated))
        &&& self.continue_if_invalid == last_bool(ps, focus_is(FocusField::ContinueIfInvalid))
        &&& self.cancel_if_invalid == last_bool(ps, focus_is(FocusField::CancelIfInvalid))
        &&& self.relative_position_id@ == last_text(ps, focus_is(FocusField::RelativePositionId))
        &&& view_option(self.prerequisite) == last_where(ps, focus_is(FocusField::Prerequisite))
        &&& view_option(self.allow_branch) == last_where(ps, focus_is(FocusField::AllowBranch))
        &&& view_option(self.offset) == last_where(ps, focus_is(FocusField::Offset))
        &&& view_option(self.mutually_exclusive)
            == last_where(ps, focus_is(FocusField::MutuallyExclusive))
        &&& view_option(self.complete_tooltip)
            == last_where(ps, focus_is(FocusField::CompleteTooltip))
        &&& self.will_lead_to_war_with@ == last_text(ps, focus_is(FocusField::WillLeadToWarWith))
        &&& view_option(self.cancel) == last_where(ps, focus_is(FocusField::Cancel))
        &&& self.dynamic == last_bool(ps, focus_is(FocusField::Dynamic))
        &&& view_values(self.select_effect@) == all_where(ps, focus_is(FocusField::SelectEffect))
        &&& self.text@ == last_text(ps, focus_is(FocusField::Text))
        &&& view_values(self.historical_ai@) == all_where(ps, focus_is(FocusField::HistoricalAi))
        &&& self.cancelable == last_bool(ps, focus_is(FocusField::Cancelable))
        &&& view_table(self.unknown) == unknown_where(ps, focus_known())
    }

    /// Record `k` of `rs` is the one that value `k` of `vs` describes.
    pub open spec fn projects_each(rs: Seq<Focus>, vs: Seq<SpecValue>) -> bool {
        &&& rs.len() == vs.len()
        &&& forall|k: int| 0 <= k < rs.len() ==> #[trigger] rs[k].projects(members(vs[k]))
    }

    /// The record that `ps` describes.
    pub fn from_pairs(ps: &Vec<ConfigPair>) -> (r: Focus)
        ensures
            r.projects(view_pairs(ps@)),
    {
        let ghost sps = view_pairs(ps@);
        let mut r = Focus::default();
        proof {
            lemma_view_pairs_len(ps@);
            assert(sps.subrange(0, 0) =~= Seq::<SpecPair>::empty());
        }
        let mut i: usize = 0;
        while i < ps.len()
            invariant
                sps == view_pairs(ps@),
                sps.len() == ps@.len(),
                i <= ps@.len(),
                r.projects(sps.subrange(0, i as int)),
            decreases ps.len() - i,
        {
            let p = &ps[i];
            proof {
                lemma_view_pairs_index(ps@, i as int);
                lemma_step(sps, i as int);
            }
            match focus_field_of(p.identifier.as_str()) {
                Some(FocusField::Id) => r.id = p.value.to_string(),
                Some(FocusField::Icon) => r.icon = p.value.to_string(),
                Some(FocusField::X) => r.x = p.value.to_i32(),
                Some(FocusField::Y) => r.y = p.value.to_i32(),
                Some(FocusField::Cost) => r.cost = p.value.to_u8(),
                Some(FocusField::Available) => r.available = Some(p.value.duplicate()),
                Some(FocusField::AiWillDo) => r.ai_will_do = Some(p.value.duplicate()),
                Some(FocusField::Bypass) => r.bypass = Some(p.value.duplicate()),
                Some(FocusField::CompletionReward) => {
                    r.completion_reward = Some(p.value.duplicate());
                },
                Some(FocusField::SearchFilters) => r.search_filters = p.value.to_strings(),
                Some(FocusField::AvailableIfCapitulated) => {
                    r.available_if_capitulated = p.value.to_bool();
                },
                Some(FocusField::ContinueIfInvalid) => r.continue_if_invalid = p.value.to_bool(),
                Some(FocusField::CancelIfInvalid) => r.cancel_if_invalid = p.value.to_bool(),
                Some(FocusField::RelativePositionId) => {
                    r.relative_position_id = p.value.to_string();
                },
                Some(FocusField::Prerequisite) => r.prerequisite = Some(p.value.duplicate()),
                Some(FocusField::AllowBranch) => r.allow_branch = Some(p.value.duplicate()),
                Some(FocusField::Offset) => r.offset = Some(p.value.duplicate()),
                Some(FocusField::MutuallyExclusive) => {
                    r.mutually_exclusive = Some(p.value.duplicate());
                },
                Some(FocusField::CompleteTooltip) => r.complete_tooltip = Some(p.value.duplicate()),
                Some(FocusField::WillLeadToWarWith) => {
                    r.will_lead_to_war_with = p.value.to_string();
                },
                Some(FocusField::Cancel) => r.cancel = Some(p.value.duplicate()),
                Some(FocusField::Dynamic) => r.dynamic = p.value.to_bool(),
                Some(FocusField::SelectEffect) => {
                    let v = p.value.duplicate();
                    proof {
                        lemma_view_values_push(r.select_effect@, v);
                    }
                    r.select_effect.push(v);
                },
                Some(FocusField::Text) => r.text = p.value.to_string(),
                Some(FocusField::HistoricalAi) => {
                    let v = p.value.duplicate();
                    proof {
                        lemma_view_values_push(r.historical_ai@, v);
                    }
                    r.historical_ai.push(v);
                },
                Some(FocusField::Cancelable) => r.cancelable = p.value.to_bool(),
                None => record_unknown(&mut r.unknown, p),
            }
            i = i + 1;
        }
        assert(sps.subrange(0, sps.len() as int) =~= sps);
        r
    }

    /// The record that an object describes; the default record for any other value.
    pub fn new(value: &ConfigValue) -> (r: Focus)
        ensures
            r.projects(members(value@)),
    {
        match value {
            ConfigValue::Object(ps) => Focus::from_pairs(ps),
            _ => Focus::default(),
        }
    }
}

impl Default for Focus {
    /// The record of no pairs.
    fn default() -> (r: Focus)
        ensures
            r.projects(Seq::empty()),
    {
        let r = Focus {
            id: String::new(),
            icon: String::new(),
            x: 0,
            y: 0,
            cost: 0,
            available: None,
            ai_will_do: None,
            bypass: None,
            completion_reward: None,
            search_filters: Vec::new(),
            available_if_capitulated: false,
            continue_if_invalid: false,
            cancel_if_invalid: false,
            relative_position_id: String::new(),
            prerequisite: None,
            allow_branch: None,
            offset: None,
            mutually_exclusive: None,
            complete_tooltip: None,
            will_lead_to_war_with: String::new(),
            cancel: None,
            dynamic: false,
            select_effect: Vec::new(),
            text: String::new(),
            historical_ai: Vec::new(),
            cancelable: false,
            unknown: Table::new(),
        };
        proof {
            lemma_empty_table(r.unknown);
            assert(view_strings(r.search_filters@) =~= Seq::<Seq<char>>::empty());
            assert(view_values(r.select_effect@) =~= Seq::<SpecValue>::empty());
            assert(view_values(r.historical_ai@) =~= Seq::<SpecValue>::empty());
        }
        r
    }
}

// ---------------------------------------------------------------------------
// FocusTree
// ---------------------------------------------------------------------------

#[derive(Clone, Copy, Debug, PartialEq, Eq, Structural)]
pub enum FocusTreeField {
    Id,
    Country,
    Default,
    InitialShowPosition,
    ContinuousFocusPosition,
    Focus,
    SharedFocus,
    ResetOnCivilwar,
}

/// The field that an identifier sets in a record of this kind; identifiers are
/// compared with their case.
pub open spec fn focus_tree_field(id: Seq<char>) -> Option<FocusTreeField> {
    if id == "id"@ {
        Some(FocusTreeField::Id)
    } else if id == "country"@ {
        Some(FocusTreeField::Country)
    } else if id == "default"@ {
        Some(FocusTreeField::Default)
    } else if id == "initial_show_position"@ {
        Some(FocusTreeField::InitialShowPosition)
    } else if id == "continuous_focus_position"@ {
        Some(FocusTreeField::ContinuousFocusPosition)
    } else if id == "focus"@ {
        Some(FocusTreeField::Focus)
    } else if id == "shared_focus"@ {
        Some(FocusTreeField::SharedFocus)
    } else if id == "reset_on_civilwar"@ {
        Some(FocusTreeField::ResetOnCivilwar)
    } else {
        None
    }
}

pub open spec fn focus_tree_is(f: FocusTreeField) -> spec_fn(Seq<char>) -> bool {
    |id: Seq<char>| focus_tree_field(id) == Some(f)
}

pub open spec fn focus_tree_known() -> spec_fn(Seq<char>) -> bool {
    |id: Seq<char>| focus_tree_field(id) is Some
}

fn focus_tree_field_of(id: &str) -> (r: Option<FocusTreeField>)
    ensures
        r == focus_tree_field(id@),
{
    if same_text(id, "id") {
        Some(FocusTreeField::Id)
    } else if same_text(id, "country") {
        Some(FocusTreeField::Country)
    } else if same_text(id, "default") {
        Some(FocusTreeField::Default)
    } else if same_text(id, "initial_show_position") {
        Some(FocusTreeField::InitialShowPosition)
    } else if same_text(id, "continuous_focus_position") {
        Some(FocusTreeField::ContinuousFocusPosition)
    } else if same_text(id, "focus") {
        Some(FocusTreeField::Focus)
    } else if same_text(id, "shared_focus") {
        Some(FocusTreeField::SharedFocus)
    } else if same_text(id, "reset_on_civilwar") {
        Some(FocusTreeField::ResetOnCivilwar)
    } else {
        None
    }
}

#[derive(Debug)]
pub struct FocusTree {
    pub id: String,
    pub country: Option<ConfigValue>,
    pub default: bool,
    pub initial_show_position: Option<ConfigValue>,
    pub continuous_focus_position: Option<ConfigValue>,
    pub focus: Vec<Focus>,
    pub shared_focus: Vec<ConfigValue>,
    pub reset_on_civilwar: bool,
    /// The last value of each identifier that no field takes.
    pub unknown: Table<ConfigValue>,
}

impl FocusTree {
    /// The record that the pairs `ps` describe: a field fed by one pair takes the
    /// last such pair; a list takes every such pair, in order.
    pub open spec fn projects(self, ps: Seq<SpecPair>) -> bool {
        &&& self.id@ == last_text(ps, focus_tree_is(FocusTreeField::Id))
        &&& view_option(self.country) == last_where(ps, focus_tree_is(FocusTreeField::Country))
        &&& self.default == last_bool(ps, focus_tree_is(FocusTreeField::Default))
        &&& view_option(self.initial_show_position)
            == last_where(ps, focus_tree_is(FocusTreeField::InitialShowPosition))
        &&& view_option(self.continuous_focus_position)
            == last_where(ps, focus_tree_is(FocusTreeField::ContinuousFocusPosition))
        &&& Focus::projects_each(self.focus@, all_where(ps, focus_tree_is(FocusTreeField::Focus)))
        &&& view_values(self.shared_focus@)
            == all_where(ps, focus_tree_is(FocusTreeField::SharedFocus))
        &&& self.reset_on_civilwar == last_bool(ps, focus_tree_is(FocusTreeField::ResetOnCivilwar))
        &&& view_table(self.unknown) == unknown_where(ps, focus_tree_known())
    }

    /// Record `k` of `rs` is the one that value `k` of `vs` describes.
    pub open spec fn projects_each(rs: Seq<FocusTree>, vs: Seq<SpecValue>) -> bool {
        &&& rs.len() == vs.len()
        &&& forall|k: int| 0 <= k < rs.len() ==> #[trigger] rs[k].projects(members(vs[k]))
    }

    /// The record that `ps` describes.
    pub fn from_pairs(ps: &Vec<ConfigPair>) -> (r: FocusTree)
        ensures
            r.projects(view_pairs(ps@)),
    {
        let ghost sps = view_pairs(ps@);
        let mut r = FocusTree::default();
        proof {
            lemma_view_pairs_len(ps@);
            assert(sps.subrange(0, 0) =~= Seq::<SpecPair>::empty());
        }
        let mut i: usize = 0;
        while i < ps.len()
            invariant
                sps == view_pairs(ps@),
                sps.len() == ps@.len(),
                i <= ps@.len(),
                r.projects(sps.subrange(0, i as int)),
            decreases ps.len() - i,
        {
            let p = &ps[i];
            proof {
                lemma_view_pairs_index(ps@, i as int);
                lemma_step(sps, i as int);
            }
            match focus_tree_field_of(p.identifier.as_str()) {
                Some(FocusTreeField::Id) => r.id = p.value.to_string(),
                Some(FocusTreeField::Country) => r.country = Some(p.value.duplicate()),
                Some(FocusTreeField::Default) => r.default = p.value.to_bool(),
                Some(FocusTreeField::InitialShowPosition) => {
                    r.initial_show_position = Some(p.value.duplicate());
                },
                Some(FocusTreeField::ContinuousFocusPosition) => {
                    r.continuous_focus_position = Some(p.value.duplicate());
                },
                Some(FocusTreeField::Focus) => {
                    let x = Focus::new(&p.value);
                    r.focus.push(x);
                },
                Some(FocusTreeField::SharedFocus) => {
                    let v = p.value.duplicate();
                    proof {
                        lemma_view_values_push(r.shared_focus@, v);
                    }
                    r.shared_focus.push(v);
                },
                Some(FocusTreeField::ResetOnCivilwar) => r.reset_on_civilwar = p.value.to_bool(),
                None => record_unknown(&mut r.unknown, p),
            }
            i = i + 1;
        }
        assert(sps.subrange(0, sps.len() as int) =~= sps);
        r
    }

    /// The record that an object describes; the default record for any other value.
    pub fn new(value: &ConfigValue) -> (r: FocusTree)
        ensures
            r.projects(members(value@)),
    {
        match value {
            ConfigValue::Object(ps) => FocusTree::from_pairs(ps),
            _ => FocusTree::default(),
        }
    }
}

impl Default for FocusTree {
    /// The record of no pairs.
    fn default() -> (r: FocusTree)
        ensures
            r.projects(Seq::empty()),
    {
        let r = FocusTree {
            id: String::new(),
            country: None,
            default: false,
            initial_show_position: None,
            continuous_focus_position: None,
            focus: Vec::new(),
            shared_focus: Vec::new(),
            reset_on_civilwar: false,
            unknown: Table::new(),
        };
        proof {
            lemma_empty_table(r.unknown);
            assert(view_values(r.shared_focus@) =~= Seq::<SpecValue>::empty());
        }
        r
    }
}

// ---------------------------------------------------------------------------
// FocusTreeBase
// ---------------------------------------------------------------------------

#[derive(Clone, Copy, Debug, PartialEq, Eq, Structural)]
pub enum FocusTreeBaseField {
    FocusTree,
    SharedFocus,
    SearchFilterPrios,
    JointFocus,
    Style,
}

/// The field that an identifier sets in a record of this kind; identifiers are
/// compared with their case.
pub open spec fn focus_tree_base_field(id: Seq<char>) -> Option<FocusTreeBaseField> {
    if id == "focus_tree"@ {
        Some(FocusTreeBaseField::FocusTree)
    } else if id == "shared_focus"@ {
        Some(FocusTreeBaseField::SharedFocus)
    } else if id == "search_filter_prios"@ {
        Some(FocusTreeBaseField::SearchFilterPrios)
    } else if id == "joint_focus"@ {
        Some(FocusTreeBaseField::JointFocus)
    } else if id == "style"@ {
        Some(FocusTreeBaseField::Style)
    } else {
        None
    }
}

pub open spec fn focus_tree_base_is(f: FocusTreeBaseField) -> spec_fn(Seq<char>) -> bool {
    |id: Seq<char>| focus_tree_base_field(id) == Some(f)
}

pub open spec fn focus_tree_base_known() -> spec_fn(Seq<char>) -> bool {
    |id: Seq<char>| focus_tree_base_field(id) is Some
}

fn focus_tree_base_field_of(id: &str) -> (r: Option<FocusTreeBaseField>)
    ensures
        r == focus_tree_base_field(id@),
{
    if same_text(id, "focus_tree") {
        Some(FocusTreeBaseField::FocusTree)
    } else if same_text(id, "shared_focus") {
        Some(FocusTreeBaseField::SharedFocus)
    } else if same_text(id, "search_filter_prios") {
        Some(FocusTreeBaseField::SearchFilterPrios)
    } else if same_text(id, "joint_focus") {
        Some(FocusTreeBaseField::JointFocus)
    } else if same_text(id, "style") {
        Some(FocusTreeBaseField::Style)
    } else {
        None
    }
}

/// The focus tree of one national focus file.
#[derive(Debug)]
pub struct FocusTreeBase {
    pub focus_tree: FocusTree,
    pub shared_focus: Vec<ConfigValue>,
    pub search_filter_prios: Vec<ConfigValue>,
    pub joint_focus: Vec<ConfigValue>,
    pub style: Vec<ConfigValue>,
    /// The last value of each identifier that no field takes.
    pub unknown: Table<ConfigValue>,
}

impl FocusTreeBase {
    /// The record that the pairs `ps` describe: a field fed by one pair takes the
    /// last such pair; a list takes every such pair, in order.
    pub open spec fn projects(self, ps: Seq<SpecPair>) -> bool {
        &&& self.focus_tree.projects(
            last_members(ps, focus_tree_base_is(FocusTreeBaseField::FocusTree)),
        )
        &&& view_values(self.shared_focus@)
            == all_where(ps, focus_tree_base_is(FocusTreeBaseField::SharedFocus))
        &&& view_values(self.search_filter_prios@)
            == all_where(ps, focus_tree_base_is(FocusTreeBaseField::SearchFilterPrios))
        &&& view_values(self.joint_focus@)
            == all_where(ps, focus_tree_base_is(FocusTreeBaseField::JointFocus))
        &&& view_values(self.style@) == all_where(ps, focus_tree_base_is(FocusTreeBaseField::Style))
        &&& view_table(self.unknown) == unknown_where(ps, focus_tree_base_known())
    }

    /// The record that `ps` describes.
    pub fn new(ps: &Vec<ConfigPair>) -> (r: FocusTreeBase)
        ensures
            r.projects(view_pairs(ps@)),
    {
        let ghost sps = view_pairs(ps@);
        let mut r = FocusTreeBase::default();
        proof {
            lemma_view_pairs_len(ps@);
            assert(sps.subrange(0, 0) =~= Seq::<SpecPair>::empty());
        }
        let mut i: usize = 0;
        while i < ps.len()
            invariant
                sps == view_pairs(ps@),
                sps.len() == ps@.len(),
                i <= ps@.len(),
                r.projects(sps.subrange(0, i as int)),
            decreases ps.len() - i,
        {
            let p = &ps[i];
            proof {
                lemma_view_pairs_index(ps@, i as int);
                lemma_step(sps, i as int);
            }
            match focus_tree_base_field_of(p.identifier.as_str()) {
                Some(FocusTreeBaseField::FocusTree) => r.focus_tree = FocusTree::new(&p.value),
                Some(FocusTreeBaseField::SharedFocus) => {
                    let v = p.value.duplicate();
                    proof {
                        lemma_view_values_push(r.shared_focus@, v);
                    }
                    r.shared_focus.push(v);
                },
                Some(FocusTreeBaseField::SearchFilterPrios) => {
                    let v = p.value.duplicate();
                    proof {
                        lemma_view_values_push(r.search_filter_prios@, v);
                    }
                    r.search_filter_prios.push(v);
                },
                Some(FocusTreeBaseField::JointFocus) => {
                    let v = p.value.duplicate();
                    proof {
                        lemma_view_values_push(r.joint_focus@, v);
                    }
                    r.joint_focus.push(v);
                },
                Some(FocusTreeBaseField::Style) => {
                    let v = p.value.duplicate();
                    proof {
                        lemma_view_values_push(r.style@, v);
                    }
                    r.style.push(v);
                },
                None => record_unknown(&mut r.unknown, p),
            }
            i = i + 1;
        }
        assert(sps.subrange(0, sps.len() as int) =~= sps);
        r
    }
}

impl Default for FocusTreeBase {
    /// The record of no pairs.
    fn default() -> (r: FocusTreeBase)
        ensures
            r.projects(Seq::empty()),
    {
        let r = FocusTreeBase {
            focus_tree: FocusTree::default(),
            shared_focus: Vec::new(),
            search_filter_prios: Vec::new(),
            joint_focus: Vec::new(),
            style: Vec::new(),
            unknown: Table::new(),
        };
        proof {
            lemma_empty_table(r.unknown);
            assert(view_values(r.shared_focus@) =~= Seq::<SpecValue>::empty());
            assert(view_values(r.search_filter_prios@) =~= Seq::<SpecValue>::empty());
            assert(view_values(r.joint_focus@) =~= Seq::<SpecValue>::empty());
            assert(view_values(r.style@) =~= Seq::<SpecValue>::empty());
        }
        r
    }
}
} // verus!
