//! Country history records and the records nested in them.
use crate::coerce::{lemma_view_strings_push, view_strings};
use crate::decimal::Decimal;
use crate::projection::{
    all_texts, all_where, last_bool, last_decimal, last_identifiers, last_int, last_members,
    last_strings, last_text, lemma_empty_table, lemma_known_never_unknown, lemma_step,
    lemma_texts_len, members, pairs_where, record_unknown, unknown_where, view_table,
};
use crate::table::Table;
use crate::text::same_text;
use crate::value::{
    lemma_view_pairs_index, lemma_view_pairs_len, lemma_view_pairs_push, lemma_view_values_push,
    view_pairs, view_values, ConfigPair, ConfigValue, SpecPair, SpecValue,
};
use vstd::prelude::*;

verus! {

// ---------------------------------------------------------------------------
// Politics
// ---------------------------------------------------------------------------

#[derive(Clone, Copy, Debug, PartialEq, Eq, Structural)]
pub enum PoliticsField {
    RulingParty,
    LastElection,
    ElectionFrequency,
    ElectionsAllowed,
}

/// The field that an identifier sets in a record of this kind; identifiers are
/// compared with their case.
pub open spec fn politics_field(id: Seq<char>) -> Option<PoliticsField> {
    if id == "ruling_party"@ {
        Some(PoliticsField::RulingParty)
    } else if id == "last_election"@ {
        Some(PoliticsField::LastElection)
    } else if id == "election_frequency"@ {
        Some(PoliticsField::ElectionFrequency)
    } else if id == "elections_allowed"@ {
        Some(PoliticsField::ElectionsAllowed)
    } else {
        None
    }
}

pub open spec fn politics_is(f: PoliticsField) -> spec_fn(Seq<char>) -> bool {
    |id: Seq<char>| politics_field(id) == Some(f)
}

pub open spec fn politics_known() -> spec_fn(Seq<char>) -> bool {
    |id: Seq<char>| politics_field(id) is Some
}

fn politics_field_of(id: &str) -> (r: Option<PoliticsField>)
    ensures
        r == politics_field(id@),
{
    if same_text(id, "ruling_party") {
        Some(PoliticsField::RulingParty)
    } else if same_text(id, "last_election") {
        Some(PoliticsField::LastElection)
    } else if same_text(id, "election_frequency") {
        Some(PoliticsField::ElectionFrequency)
    } else if same_text(id, "elections_allowed") {
        Some(PoliticsField::ElectionsAllowed)
    } else {
        None
    }
}

#[derive(Debug)]
pub struct Politics {
    pub ruling_party: String,
    pub last_election: String,
    pub election_frequency: u8,
    pub elections_allowed: bool,
    /// The last value of each identifier that no field takes.
    pub unknown: Table<ConfigValue>,
}

impl Politics {
    /// The record that the pairs `ps` describe: a field fed by one pair takes the
    /// last such pair; a list takes every such pair, in order.
    pub open spec fn projects(self, ps: Seq<SpecPair>) -> bool {
        &&& self.ruling_party@ == last_text(ps, politics_is(PoliticsField::RulingParty))
        &&& self.last_election@ == last_text(ps, politics_is(PoliticsField::LastElection))
        &&& self.election_frequency as int
            == last_int(ps, politics_is(PoliticsField::ElectionFrequency), 0, u8::MAX as int)
        &&& self.elections_allowed == last_bool(ps, politics_is(PoliticsField::ElectionsAllowed))
        &&& view_table(self.unknown) == unknown_where(ps, politics_known())
    }

    /// Record `k` of `rs` is the one that value `k` of `vs` describes.
    pub open spec fn projects_each(rs: Seq<Politics>, vs: Seq<SpecValue>) -> bool {
        &&& rs.len() == vs.len()
        &&& forall|k: int| 0 <= k < rs.len() ==> #[trigger] rs[k].projects(members(vs[k]))
    }

    /// The record that `ps` describes.
    pub fn from_pairs(ps: &Vec<ConfigPair>) -> (r: Politics)
        ensures
            r.projects(view_pairs(ps@)),
    {
        let ghost sps = view_pairs(ps@);
        let mut r = Politics::default();
        proof {
            lemma_view_pairs_len(ps@);
            assert(sps.subrange(0, 0) =~= Seq::<SpecPair>::empty());
        }
        let mut i: usize = 0;
        while i < ps.len()
            invariant
                sps == view_pairs(ps@),
                sps.len() == ps@.len(),
                i <= ps@.len(),
                r.projects(sps.subrange(0, i as int)),
            decreases ps.len() - i,
        {
            let p = &ps[i];
            proof {
                lemma_view_pairs_index(ps@, i as int);
                lemma_step(sps, i as int);
            }
            match politics_field_of(p.identifier.as_str()) {
                Some(PoliticsField::RulingParty) => r.ruling_party = p.value.to_string(),
                Some(PoliticsField::LastElection) => r.last_election = p.value.to_string(),
                Some(PoliticsField::ElectionFrequency) => r.election_frequency = p.value.to_u8(),
                Some(PoliticsField::ElectionsAllowed) => r.elections_allowed = p.value.to_bool(),
                None => record_unknown(&mut r.unknown, p),
            }
            i = i + 1;
        }
        assert(sps.subrange(0, sps.len() as int) =~= sps);
        r
    }

    /// The record that an object describes; the default record for any other value.
    pub fn new(value: &ConfigValue) -> (r: Politics)
        ensures
            r.projects(members(value@)),
    {
        match value {
            ConfigValue::Object(ps) => Politics::from_pairs(ps),
            _ => Politics::default(),
        }
    }
}

impl Default for Politics {
    /// The record of no pairs.
    fn default() -> (r: Politics)
        ensures
            r.projects(Seq::empty()),
    {
        let r = Politics {
            ruling_party: String::new(),
            last_election: String::new(),
            election_frequency: 0,
            elections_allowed: false,
            unknown: Table::new(),
        };
        proof {
            lemma_empty_table(r.unknown);
        }
        r
    }
}

// ---------------------------------------------------------------------------
// Popularities
// ---------------------------------------------------------------------------

#[derive(Clone, Copy, Debug, PartialEq, Eq, Structural)]
pub enum PopularitiesField {
    Communism,
    Democracy,
    Fascism,
    Neutrality,
}

/// The field that an identifier sets in a record of this kind; identifiers are
/// compared with their case.
pub open spec fn popularities_field(id: Seq<char>) -> Option<PopularitiesField> {
    if id == "communism"@ {
        Some(PopularitiesField::Communism)
    } else if id == "democratic"@ {
        Some(PopularitiesField::Democracy)
    } else if id == "fascism"@ {
        Some(PopularitiesField::Fascism)
    } else if id == "neutrality"@ {
        Some(PopularitiesField::Neutrality)
    } else {
        None
    }
}

pub open spec fn popularities_is(f: PopularitiesField) -> spec_fn(Seq<char>) -> bool {
    |id: Seq<char>| popularities_field(id) == Some(f)
}

pub open spec fn popularities_known() -> spec_fn(Seq<char>) -> bool {
    |id: Seq<char>| popularities_field(id) is Some
}

fn popularities_field_of(id: &str) -> (r: Option<PopularitiesField>)
    ensures
        r == popularities_field(id@),
{
    if same_text(id, "communism") {
        Some(PopularitiesField::Communism)
    } else if same_text(id, "democratic") {
        Some(PopularitiesField::Democracy)
    } else if same_text(id, "fascism") {
        Some(PopularitiesField::Fascism)
    } else if same_text(id, "neutrality") {
        Some(PopularitiesField::Neutrality)
    } else {
        None
    }
}

#[derive(Debug)]
pub struct Popularities {
    pub communism: u8,
    pub democracy: u8,
    pub fascism: u8,
    pub neutrality: u8,
    /// The last value of each identifier that no field takes.
    pub unknown: Table<ConfigValue>,
}

impl Popularities {
    /// The record that the pairs `ps` describe: a field fed by one pair takes the
    /// last such pair; a list takes every such pair, in order.
    pub open spec fn projects(self, ps: Seq<SpecPair>) -> bool {
        &&& self.communism as int
            == last_int(ps, popularities_is(PopularitiesField::Communism), 0, u8::MAX as int)
        &&& self.democracy as int
            == last_int(ps, popularities_is(PopularitiesField::Democracy), 0, u8::MAX as int)
        &&& self.fascism as int
            == last_int(ps, popularities_is(PopularitiesField::Fascism), 0, u8::MAX as int)
        &&& self.neutrality as int
            == last_int(ps, popularities_is(PopularitiesField::Neutrality), 0, u8::MAX as int)
        &&& view_table(self.unknown) == unknown_where(ps, popularities_known())
    }

    /// Record `k` of `rs` is the one that value `k` of `vs` describes.
    pub open spec fn projects_each(rs: Seq<Popularities>, vs: Seq<SpecValue>) -> bool {
        &&& rs.len() == vs.len()
        &&& forall|k: int| 0 <= k < rs.len() ==> #[trigger] rs[k].projects(members(vs[k]))
    }

    /// The record that `ps` describes.
    pub fn from_pairs(ps: &Vec<ConfigPair>) -> (r: Popularities)
        ensures
            r.projects(view_pairs(ps@)),
    {
        let ghost sps = view_pairs(ps@);
        let mut r = Popularities::default();
        proof {
            lemma_view_pairs_len(ps@);
            assert(sps.subrange(0, 0) =~= Seq::<SpecPair>::empty());
        }
        let mut i: usize = 0;
        while i < ps.len()
            invariant
                sps == view_pairs(ps@),
                sps.len() == ps@.len(),
                i <= ps@.len(),
                r.projects(sps.subrange(0, i as int)),
            decreases ps.len() - i,
        {
            let p = &ps[i];
            proof {
                lemma_view_pairs_index(ps@, i as int);
                lemma_step(sps, i as int);
            }
            match popularities_field_of(p.identifier.as_str()) {
                Some(PopularitiesField::Communism) => r.communism = p.value.to_u8(),
                Some(PopularitiesField::Democracy) => r.democracy = p.value.to_u8(),
                Some(PopularitiesField::Fascism) => r.fascism = p.value.to_u8(),
                Some(PopularitiesField::Neutrality) => r.neutrality = p.value.to_u8(),
                None => record_unknown(&mut r.unknown, p),
            }
            i = i + 1;
        }
        assert(sps.subrange(0, sps.len() as int) =~= sps);
        r
    }

    /// The record that an object describes; the default record for any other value.
    pub fn new(value: &ConfigValue) -> (r: Popularities)
        ensures
            r.projects(members(value@)),
    {
        match value {
            ConfigValue::Object(ps) => Popularities::from_pairs(ps),
            _ => Popularities::default(),
        }
    }
}

impl Default for Popularities {
    /// The record of no pairs.
    fn default() -> (r: Popularities)
        ensures
            r.projects(Seq::empty()),
    {
        let r = Popularities {
            communism: 0,
            democracy: 0,
            fascism: 0,
            neutrality: 0,
            unknown: Table::new(),
        };
        proof {
            lemma_empty_table(r.unknown);
        }
        r
    }
}

// ---------------------------------------------------------------------------
// Equipment
// ---------------------------------------------------------------------------

#[derive(Clone, Copy, Debug, PartialEq, Eq, Structural)]
pub enum EquipmentField {
    Name,
    Amount,
    Producer,
}

/// The field that an identifier sets in a record of this kind; identifiers are
/// compared with their case.
pub open spec fn equipment_field(id: Seq<char>) -> Option<EquipmentField> {
    if id == "type"@ {
        Some(EquipmentField::Name)
    } else if id == "amount"@ {
        Some(EquipmentField::Amount)
    } else if id == "producer"@ {
        Some(EquipmentField::Producer)
    } else {
        None
    }
}

pub open spec fn equipment_is(f: EquipmentField) -> spec_fn(Seq<char>) -> bool {
    |id: Seq<char>| equipment_field(id) == Some(f)
}

pub open spec fn equipment_known() -> spec_fn(Seq<char>) -> bool {
    |id: Seq<char>| equipment_field(id) is Some
}

fn equipment_field_of(id: &str) -> (r: Option<EquipmentField>)
    ensures
        r == equipment_field(id@),
{
    if same_text(id, "type") {
        Some(EquipmentField::Name)
    } else if same_text(id, "amount") {
        Some(EquipmentField::Amount)
    } else if same_text(id, "producer") {
        Some(EquipmentField::Producer)
    } else {
        None
    }
}

#[derive(Debug)]
pub struct Equipment {
    pub name: String,
    pub amount: u16,
    pub producer: String,
    /// The last value of each identifier that no field takes.
    pub unknown: Table<ConfigValue>,
}

impl Equipment {
    /// The record that the pairs `ps` describe: a field fed by one pair takes the
    /// last such pair; a list takes every such pair, in order.
    pub open spec fn projects(self, ps: Seq<SpecPair>) -> bool {
        &&& self.name@ == last_text(ps, equipment_is(EquipmentField::Name))
        &&& self.amount as int
            == last_int(ps, equipment_is(EquipmentField::Amount), 0, u16::MAX as int)
        &&& self.producer@ == last_text(ps, equipment_is(EquipmentField::Producer))
        &&& view_table(self.unknown) == unknown_where(ps, equipment_known())
    }

    /// Record `k` of `rs` is the one that value `k` of `vs` describes.
    pub open spec fn projects_each(rs: Seq<Equipment>, vs: Seq<SpecValue>) -> bool {
        &&& rs.len() == vs.len()
        &&& forall|k: int| 0 <= k < rs.len() ==> #[trigger] rs[k].projects(members(vs[k]))
    }

    /// The record that `ps` describes.
    pub fn from_pairs(ps: &Vec<ConfigPair>) -> (r: Equipment)
        ensures
            r.projects(view_pairs(ps@)),
    {
        let ghost sps = view_pairs(ps@);
        let mut r = Equipment::default();
        proof {
            lemma_view_pairs_len(ps@);
            assert(sps.subrange(0, 0) =~= Seq::<SpecPair>::empty());
        }
        let mut i: usize = 0;
        while i < ps.len()
            invariant
                sps == view_pairs(ps@),
                sps.len() == ps@.len(),
                i <= ps@.len(),
                r.projects(sps.subrange(0, i as int)),
            decreases ps.len() - i,
        {
            let p = &ps[i];
            proof {
                lemma_view_pairs_index(ps@, i as int);
                lemma_step(sps, i as int);
            }
            match equipment_field_of(p.identifier.as_str()) {
                Some(EquipmentField::Name) => r.name = p.value.to_string(),
                Some(EquipmentField::Amount) => r.amount = p.value.to_u16(),
                Some(EquipmentField::Producer) => r.producer = p.value.to_string(),
                None => record_unknown(&mut r.unknown, p),
            }
            i = i + 1;
        }
        assert(sps.subrange(0, sps.len() as int) =~= sps);
        r
    }

    /// The record that an object describes; the default record for any other value.
    pub fn new(value: &ConfigValue) -> (r: Equipment)
        ensures
            r.projects(members(value@)),
    {
        match value {
            ConfigValue::Object(ps) => Equipment::from_pairs(ps),
            _ => Equipment::default(),
        }
    }
}

impl Default for Equipment {
    /// The record of no pairs.
    fn default() -> (r: Equipment)
        ensures
            r.projects(Seq::empty()),
    {
        let r = Equipment {
            name: String::new(),
            amount: 0,
            producer: String::new(),
            unknown: Table::new(),
        };
        proof {
            lemma_empty_table(r.unknown);
        }
        r
    }
}

// ---------------------------------------------------------------------------
// CountryLeader
// ---------------------------------------------------------------------------

#[derive(Clone, Copy, Debug, PartialEq, Eq, Structural)]
pub enum CountryLeaderField {
    Name,
    Picture,
    Expire,
    Ideology,
    Desc,
    Traits,
}

/// The field that an identifier sets in a record of this kind; identifiers are
/// compared with their case.
pub open spec fn country_leader_field(id: Seq<char>) -> Option<CountryLeaderField> {
    if id == "name"@ {
        Some(CountryLeaderField::Name)
    } else if id == "picture"@ {
        Some(CountryLeaderField::Picture)
    } else if id == "expire"@ {
        Some(CountryLeaderField::Expire)
    } else if id == "ideology"@ {
        Some(CountryLeaderField::Ideology)
    } else if id == "desc"@ {
        Some(CountryLeaderField::Desc)
    } else if id == "traits"@ {
        Some(CountryLeaderField::Traits)
    } else {
        None
    }
}

pub open spec fn country_leader_is(f: CountryLeaderField) -> spec_fn(Seq<char>) -> bool {
    |id: Seq<char>| country_leader_field(id) == Some(f)
}

pub open spec fn country_leader_known() -> spec_fn(Seq<char>) -> bool {
    |id: Seq<char>| country_leader_field(id) is Some
}

fn country_leader_field_of(id: &str) -> (r: Option<CountryLeaderField>)
    ensures
        r == country_leader_field(id@),
{
    if same_text(id, "name") {
        Some(CountryLeaderField::Name)
    } else if same_text(id, "picture") {
        Some(CountryLeaderField::Picture)
    } else if same_text(id, "expire") {
        Some(CountryLeaderField::Expire)
    } else if same_text(id, "ideology") {
        Some(CountryLeaderField::Ideology)
    } else if same_text(id, "desc") {
        Some(CountryLeaderField::Desc)
    } else if same_text(id, "traits") {
        Some(CountryLeaderField::Traits)
    } else {
        None
    }
}

#[derive(Debug)]
pub struct CountryLeader {
    pub name: String,
    pub picture: String,
    pub expire: String,
    pub ideology: String,
    pub desc: String,
    pub traits: Vec<String>,
    /// The last value of each identifier that no field takes.
    pub unknown: Table<ConfigValue>,
}

impl CountryLeader {
    /// The record that the pairs `ps` describe: a field fed by one pair takes the
    /// last such pair; a list takes every such pair, in order.
    pub open spec fn projects(self, ps: Seq<SpecPair>) -> bool {
        &&& self.name@ == last_text(ps, country_leader_is(CountryLeaderField::Name))
        &&& self.picture@ == last_text(ps, country_leader_is(CountryLeaderField::Picture))
        &&& self.expire@ == last_text(ps, country_leader_is(CountryLeaderField::Expire))
        &&& self.ideology@ == last_text(ps, country_leader_is(CountryLeaderField::Ideology))
        &&& self.desc@ == last_text(ps, country_leader_is(CountryLeaderField::Desc))
        &&& view_strings(self.traits@)
            == last_strings(ps, country_leader_is(CountryLeaderField::Traits))
        &&& view_table(self.unknown) == unknown_where(ps, country_leader_known())
    }

    /// Record `k` of `rs` is the one that value `k` of `vs` describes.
    pub open spec fn projects_each(rs: Seq<CountryLeader>, vs: Seq<SpecValue>) -> bool {
        &&& rs.len() == vs.len()
        &&& forall|k: int| 0 <= k < rs.len() ==> #[trigger] rs[k].projects(members(vs[k]))
    }

    /// The record that `ps` describes.
    pub fn from_pairs(ps: &Vec<ConfigPair>) -> (r: CountryLeader)
        ensures
            r.projects(view_pairs(ps@)),
    {
        let ghost sps = view_pairs(ps@);
        let mut r = CountryLeader::default();
        proof {
            lemma_view_pairs_len(ps@);
            assert(sps.subrange(0, 0) =~= Seq::<SpecPair>::empty());
        }
        let mut i: usize = 0;
        while i < ps.len()
            invariant
                sps == view_pairs(ps@),
                sps.len() == ps@.len(),
                i <= ps@.len(),
                r.projects(sps.subrange(0, i as int)),
            decreases ps.len() - i,
        {
            let p = &ps[i];
            proof {
                lemma_view_pairs_index(ps@, i as int);
                lemma_step(sps, i as int);
            }
            match country_leader_field_of(p.identifier.as_str()) {
                Some(CountryLeaderField::Name) => r.name = p.value.to_string(),
                Some(CountryLeaderField::Picture) => r.picture = p.value.to_string(),
                Some(CountryLeaderField::Expire) => r.expire = p.value.to_string(),
                Some(CountryLeaderField::Ideology) => r.ideology = p.value.to_string(),
                Some(CountryLeaderField::Desc) => r.desc = p.value.to_string(),
                Some(CountryLeaderField::Traits) => r.traits = p.value.to_strings(),
                None => record_unknown(&mut r.unknown, p),
            }
            i = i + 1;
        }
        assert(sps.subrange(0, sps.len() as int) =~= sps);
        r
    }

    /// The record that an object describes; the default record for any other value.
    pub fn new(value: &ConfigValue) -> (r: CountryLeader)
        ensures
            r.projects(members(value@)),
    {
        match value {
            ConfigValue::Object(ps) => CountryLeader::from_pairs(ps),
            _ => CountryLeader::default(),
        }
    }
}

impl Default for CountryLeader {
    /// The record of no pairs.
    fn default() -> (r: CountryLeader)
        ensures
            r.projects(Seq::empty()),
    {
        let r = CountryLeader {
            name: String::new(),
            picture: String::new(),
            expire: String::new(),
            ideology: String::new(),
            desc: String::new(),
            traits: Vec::new(),
            unknown: Table::new(),
        };
        proof {
            lemma_empty_table(r.unknown);
            assert(view_strings(r.traits@) =~= Seq::<Seq<char>>::empty());
        }
        r
    }
}

// ---------------------------------------------------------------------------
// Country
// ---------------------------------------------------------------------------

#[derive(Clone, Copy, Debug, PartialEq, Eq, Structural)]
pub enum CountryField {
    Capital,
    Oob,
    ResearchSlots,
    Convoys,
    Trains,
    Stability,
    WarSupport,
    CommandPower,
    Ifs,
    RecruitCharacters,
    CreatedCountryLeaders,
    Start1939,
    Politics,
    Popularities,
    Technology,
    Stockpile,
    Ideas,
    Variables,
}

/// The field that an identifier sets in a record of this kind; identifiers are
/// compared with their case.
pub open spec fn country_field(id: Seq<char>) -> Option<CountryField> {
    if id == "capital"@ {
        Some(CountryField::Capital)
    } else if id == "oob"@ || id == "OOB"@ || id == "set_oob"@ {
        Some(CountryField::Oob)
    } else if id == "set_research_slots"@ || id == "add_research_slot"@ {
        Some(CountryField::ResearchSlots)
    } else if id == "set_convoys"@ {
        Some(CountryField::Convoys)
    } else if id == "starting_train_buffer"@ {
        Some(CountryField::Trains)
    } else if id == "set_stability"@ {
        Some(CountryField::Stability)
    } else if id == "set_war_support"@ {
        Some(CountryField::WarSupport)
    } else if id == "add_command_power"@ {
        Some(CountryField::CommandPower)
    } else if id == "if"@ || id == "IF"@ {
        Some(CountryField::Ifs)
    } else if id == "recruit_character"@ {
        Some(CountryField::RecruitCharacters)
    } else if id == "create_country_leader"@ {
        Some(CountryField::CreatedCountryLeaders)
    } else if id == "1939.1.1"@ {
        Some(CountryField::Start1939)
    } else if id == "set_politics"@ {
        Some(CountryField::Politics)
    } else if id == "set_popularities"@ {
        Some(CountryField::Popularities)
    } else if id == "set_technology"@ {
        Some(CountryField::Technology)
    } else if id == "add_equipment_to_stockpile"@ {
        Some(CountryField::Stockpile)
    } else if id == "add_ideas"@ {
        Some(CountryField::Ideas)
    } else if id == "set_variable"@ {
        Some(CountryField::Variables)
    } else {
        None
    }
}

pub open spec fn country_is(f: CountryField) -> spec_fn(Seq<char>) -> bool {
    |id: Seq<char>| country_field(id) == Some(f)
}

pub open spec fn country_known() -> spec_fn(Seq<char>) -> bool {
    |id: Seq<char>| country_field(id) is Some
}

fn country_field_of(id: &str) -> (r: Option<CountryField>)
    ensures
        r == country_field(id@),
{
    if same_text(id, "capital") {
        Some(CountryField::Capital)
    } else if same_text(id, "oob") || same_text(id, "OOB") || same_text(id, "set_oob") {
        Some(CountryField::Oob)
    } else if same_text(id, "set_research_slots") || same_text(id, "add_research_slot") {
        Some(CountryField::ResearchSlots)
    } else if same_text(id, "set_convoys") {
        Some(CountryField::Convoys)
    } else if same_text(id, "starting_train_buffer") {
        Some(CountryField::Trains)
    } else if same_text(id, "set_stability") {
        Some(CountryField::Stability)
    } else if same_text(id, "set_war_support") {
        Some(CountryField::WarSupport)
    } else if same_text(id, "add_command_power") {
        Some(CountryField::CommandPower)
    } else if same_text(id, "if") || same_text(id, "IF") {
        Some(CountryField::Ifs)
    } else if same_text(id, "recruit_character") {
        Some(CountryField::RecruitCharacters)
    } else if same_text(id, "create_country_leader") {
        Some(CountryField::CreatedCountryLeaders)
    } else if same_text(id, "1939.1.1") {
        Some(CountryField::Start1939)
    } else if same_text(id, "set_politics") {
        Some(CountryField::Politics)
    } else if same_text(id, "set_popularities") {
        Some(CountryField::Popularities)
    } else if same_text(id, "set_technology") {
        Some(CountryField::Technology)
    } else if same_text(id, "add_equipment_to_stockpile") {
        Some(CountryField::Stockpile)
    } else if same_text(id, "add_ideas") {
        Some(CountryField::Ideas)
    } else if same_text(id, "set_variable") {
        Some(CountryField::Variables)
    } else {
        None
    }
}

/// The history of a country: the pairs of one country history file.
#[derive(Debug)]
pub struct Country {
    pub capital: u16,
    pub oob: String,
    pub research_slots: u8,
    pub convoys: u16,
    pub trains: u16,
    pub stability: Decimal,
    pub war_support: Decimal,
    pub command_power: u16,
    pub ifs: Vec<ConfigValue>,
    pub recruit_characters: Vec<String>,
    pub created_country_leaders: Vec<CountryLeader>,
    pub start_1939: Vec<ConfigValue>,
    pub politics: Politics,
    pub popularities: Popularities,
    pub technology: Vec<String>,
    pub stockpile: Vec<Equipment>,
    pub ideas: Vec<String>,
    pub variables: Vec<ConfigPair>,
    /// The last value of each identifier that no field takes.
    pub unknown: Table<ConfigValue>,
}

impl Country {
    /// The record that the pairs `ps` describe: a field fed by one pair takes the
    /// last such pair; a list takes every such pair, in order.
    pub open spec fn projects(self, ps: Seq<SpecPair>) -> bool {
        &&& self.capital as int
            == last_int(ps, country_is(CountryField::Capital), 0, u16::MAX as int)
        &&& self.oob@ == last_text(ps, country_is(CountryField::Oob))
        &&& self.research_slots as int
            == last_int(ps, country_is(CountryField::ResearchSlots), 0, u8::MAX as int)
        &&& self.convoys as int
            == last_int(ps, country_is(CountryField::Convoys), 0, u16::MAX as int)
        &&& self.trains as int == last_int(ps, country_is(CountryField::Trains), 0, u16::MAX as int)
        &&& self.stability == last_decimal(ps, country_is(CountryField::Stability))
        &&& self.war_support == last_decimal(ps, country_is(CountryField::WarSupport))
        &&& self.command_power as int
            == last_int(ps, country_is(CountryField::CommandPower), 0, u16::MAX as int)
        &&& view_values(self.ifs@) == all_where(ps, country_is(CountryField::Ifs))
        &&& view_strings(self.recruit_characters@)
            == all_texts(ps, country_is(CountryField::RecruitCharacters))
        &&& CountryLeader::projects_each(
            self.created_country_leaders@,
            all_where(ps, country_is(CountryField::CreatedCountryLeaders)),
        )
        &&& view_values(self.start_1939@) == all_where(ps, country_is(CountryField::Start1939))
        &&& self.politics.projects(last_members(ps, country_is(CountryField::Politics)))
        &&& self.popularities.projects(last_members(ps, country_is(CountryField::Popularities)))
        &&& view_strings(self.technology@)
            == last_identifiers(ps, country_is(CountryField::Technology))
        &&& Equipment::projects_each(
            self.stockpile@,
            all_where(ps, country_is(CountryField::Stockpile)),
        )
        &&& view_strings(self.ideas@) == last_strings(ps, country_is(CountryField::Ideas))
        &&& view_pairs(self.variables@) == pairs_where(ps, country_is(CountryField::Variables))
        &&& view_table(self.unknown) == unknown_where(ps, country_known())
    }

    /// The record that `ps` describes.
    pub fn new(ps: &Vec<ConfigPair>) -> (r: Country)
        ensures
            r.projects(view_pairs(ps@)),
    {
        let ghost sps = view_pairs(ps@);
        let mut r = Country::default();
        proof {
            lemma_view_pairs_len(ps@);
            assert(sps.subrange(0, 0) =~= Seq::<SpecPair>::empty());
        }
        let mut i: usize = 0;
        while i < ps.len()
            invariant
                sps == view_pairs(ps@),
                sps.len() == ps@.len(),
                i <= ps@.len(),
                r.projects(sps.subrange(0, i as int)),
            decreases ps.len() - i,
        {
            let p = &ps[i];
            proof {
                lemma_view_pairs_index(ps@, i as int);
                lemma_step(sps, i as int);
            }
            match country_field_of(p.identifier.as_str()) {
                Some(CountryField::Capital) => r.capital = p.value.to_u16(),
                Some(CountryField::Oob) => r.oob = p.value.to_string(),
                Some(CountryField::ResearchSlots) => r.research_slots = p.value.to_u8(),
                Some(CountryField::Convoys) => r.convoys = p.value.to_u16(),
                Some(CountryField::Trains) => r.trains = p.value.to_u16(),
                Some(CountryField::Stability) => r.stability = p.value.to_decimal(),
                Some(CountryField::WarSupport) => r.war_support = p.value.to_decimal(),
                Some(CountryField::CommandPower) => r.command_power = p.value.to_u16(),
                Some(CountryField::Ifs) => {
                    let v = p.value.duplicate();
                    proof {
                        lemma_view_values_push(r.ifs@, v);
                    }
                    r.ifs.push(v);
                },
                Some(CountryField::RecruitCharacters) => {
                    let s = p.value.to_string();
                    proof {
                        lemma_view_strings_push(r.recruit_characters@, s);
                    }
                    r.recruit_characters.push(s);
                },
                Some(CountryField::CreatedCountryLeaders) => {
                    let x = CountryLeader::new(&p.value);
                    r.created_country_leaders.push(x);
                },
                Some(CountryField::Start1939) => {
                    let v = p.value.duplicate();
                    proof {
                        lemma_view_values_push(r.start_1939@, v);
                    }
                    r.start_1939.push(v);
                },
                Some(CountryField::Politics) => r.politics = Politics::new(&p.value),
                Some(CountryField::Popularities) => r.popularities = Popularities::new(&p.value),
                Some(CountryField::Technology) => {
                    r.technology = p.value.get_identifiers_from_object();
                },
                Some(CountryField::Stockpile) => {
                    let x = Equipment::new(&p.value);
                    r.stockpile.push(x);
                },
                Some(CountryField::Ideas) => r.ideas = p.value.to_strings(),
                Some(CountryField::Variables) => {
                    let q = p.duplicate();
                    proof {
                        lemma_view_pairs_push(r.variables@, q);
                    }
                    r.variables.push(q);
                },
                None => record_unknown(&mut r.unknown, p),
            }
            i = i + 1;
        }
        assert(sps.subrange(0, sps.len() as int) =~= sps);
        r
    }
}

impl Default for Country {
    /// The record of no pairs.
    fn default() -> (r: Country)
        ensures
            r.projects(Seq::empty()),
    {
        let r = Country {
            capital: 0,
            oob: String::new(),
            research_slots: 0,
            convoys: 0,
            trains: 0,
            stability: Decimal::zero(),
            war_support: Decimal::zero(),
            command_power: 0,
            ifs: Vec::new(),
            recruit_characters: Vec::new(),
            created_country_leaders: Vec::new(),
            start_1939: Vec::new(),
            politics: Politics::default(),
            popularities: Popularities::default(),
            technology: Vec::new(),
            stockpile: Vec::new(),
            ideas: Vec::new(),
            variables: Vec::new(),
            unknown: Table::new(),
        };
        proof {
            lemma_empty_table(r.unknown);
            assert(view_values(r.ifs@) =~= Seq::<SpecValue>::empty());
            assert(view_strings(r.recruit_characters@) =~= Seq::<Seq<char>>::empty());
            assert(view_values(r.start_1939@) =~= Seq::<SpecValue>::empty());
            assert(view_strings(r.technology@) =~= Seq::<Seq<char>>::empty());
            assert(view_strings(r.ideas@) =~= Seq::<Seq<char>>::empty());
            assert(view_pairs(r.variables@) =~= Seq::<SpecPair>::empty());
        }
        r
    }
}

// ---------------------------------------------------------------------------
// Laws of the country projector
// ---------------------------------------------------------------------------

/// The spellings `oob`, `OOB` and `set_oob` feed one field: it holds the text of the
/// last pair spelled in any of these ways, and none of them reaches the unknown bag.
pub proof fn lemma_oob_aliases(c: Country, ps: Seq<SpecPair>)
    requires
        c.projects(ps),
    ensures
        c.oob@ == last_text(ps, |id: Seq<char>| id == "oob"@ || id == "OOB"@ || id == "set_oob"@),
        !view_table(c.unknown).contains_key("oob"@),
        !view_table(c.unknown).contains_key("OOB"@),
        !view_table(c.unknown).contains_key("set_oob"@),
{
    reveal_strlit("capital");
    reveal_strlit("oob");
    reveal_strlit("OOB");
    reveal_strlit("set_oob");
    assert("set_oob"@[0] != "capital"@[0]);
    assert(country_is(CountryField::Oob) =~= (|id: Seq<char>|
        id == "oob"@ || id == "OOB"@ || id == "set_oob"@));
    lemma_known_never_unknown(ps, country_known(), "oob"@);
    lemma_known_never_unknown(ps, country_known(), "OOB"@);
    lemma_known_never_unknown(ps, country_known(), "set_oob"@);
}

/// Every `recruit_character` pair adds its text to the list, in file order.
pub proof fn lemma_recruits_accumulate(c: Country, ps: Seq<SpecPair>)
    requires
        c.projects(ps),
    ensures
        view_strings(c.recruit_characters@) == all_texts(
            ps,
            |id: Seq<char>| id == "recruit_character"@,
        ),
        c.recruit_characters@.len() == all_where(
            ps,
            |id: Seq<char>| id == "recruit_character"@,
        ).len(),
{
    reveal_strlit("capital");
    reveal_strlit("oob");
    reveal_strlit("OOB");
    reveal_strlit("set_oob");
    reveal_strlit("set_research_slots");
    reveal_strlit("add_research_slot");
    reveal_strlit("set_convoys");
    reveal_strlit("starting_train_buffer");
    reveal_strlit("set_stability");
    reveal_strlit("set_war_support");
    reveal_strlit("add_command_power");
    reveal_strlit("if");
    reveal_strlit("IF");
    reveal_strlit("recruit_character");
    assert("recruit_character"@[0] != "add_research_slot"@[0]);
    assert("recruit_character"@[0] != "add_command_power"@[0]);
    let hit = |id: Seq<char>| id == "recruit_character"@;
    assert(country_is(CountryField::RecruitCharacters) =~= hit);
    lemma_texts_len(ps, hit);
}

/// A single pair of an identifier that no field takes lands in the unknown bag, and
/// every field keeps the value of the record of no pairs.
pub proof fn lemma_unknown_capture(c: Country, d: Country, p: SpecPair)
    requires
        c.projects(seq![p]),
        d.projects(Seq::empty()),
        country_field(p.identifier) is None,
    ensures
        view_table(c.unknown) == map![p.identifier => p.value],
        c.capital == d.capital,
        c.oob@ == d.oob@,
        c.research_slots == d.research_slots,
        c.convoys == d.convoys,
        c.trains == d.trains,
        c.stability == d.stability,
        c.war_support == d.war_support,
        c.command_power == d.command_power,
        view_values(c.ifs@) == view_values(d.ifs@),
        view_strings(c.recruit_characters@) == view_strings(d.recruit_characters@),
        c.created_country_leaders@.len() == d.created_country_leaders@.len(),
        view_values(c.start_1939@) == view_values(d.start_1939@),
        c.politics.ruling_party@ == d.politics.ruling_party@,
        c.politics.last_election@ == d.politics.last_election@,
        c.politics.election_frequency == d.politics.election_frequency,
        c.politics.elections_allowed == d.politics.elections_allowed,
        view_table(c.politics.unknown) == view_table(d.politics.unknown),
        c.popularities.communism == d.popularities.communism,
        c.popularities.democracy == d.popularities.democracy,
        c.popularities.fascism == d.popularities.fascism,
        c.popularities.neutrality == d.popularities.neutrality,
        view_table(c.popularities.unknown) == view_table(d.popularities.unknown),
        view_strings(c.technology@) == view_strings(d.technology@),
        c.stockpile@.len() == d.stockpile@.len(),
        view_strings(c.ideas@) == view_strings(d.ideas@),
        view_pairs(c.variables@) == view_pairs(d.variables@),
{
    let ps = seq![p];
    assert(ps.drop_last() =~= Seq::<SpecPair>::empty());
    assert(ps.last() == p);
    assert(view_table(c.unknown) =~= map![p.identifier => p.value]);
}

} // verus!
