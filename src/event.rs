//! Event files: news events and their options.
use crate::coerce::{lemma_view_strings_push, view_strings};
use crate::projection::{
    all_texts, all_where, last_bool, last_text, last_where, lemma_empty_table, lemma_step, members,
    record_unknown, unknown_where, view_option, view_table,
};
use crate::table::Table;
use crate::text::same_text;
use crate::value::{
    lemma_view_pairs_index, lemma_view_pairs_len, lemma_view_values_push, view_pairs, view_values,
    ConfigPair, ConfigValue, SpecPair, SpecValue,
};
use vstd::prelude::*;

verus! {

// ---------------------------------------------------------------------------
// NewsEventOption
// ---------------------------------------------------------------------------

#[derive(Clone, Copy, Debug, PartialEq, Eq, Structural)]
pub enum NewsEventOptionField {
    Name,
    Desc,
    Log,
    HiddenEffect,
    Trigger,
}

/// The field that an identifier sets in a record of this kind; identifiers are
/// compared with their case.
pub open spec fn news_event_option_field(id: Seq<char>) -> Option<NewsEventOptionField> {
    if id == "name"@ {
        Some(NewsEventOptionField::Name)
    } else if id == "desc"@ {
        Some(NewsEventOptionField::Desc)
    } else if id == "log"@ {
        Some(NewsEventOptionField::Log)
    } else if id == "hidden_effect"@ {
        Some(NewsEventOptionField::HiddenEffect)
    } else if id == "trigger"@ {
        Some(NewsEventOptionField::Trigger)
    } else {
        None
    }
}

pub open spec fn news_event_option_is(f: NewsEventOptionField) -> spec_fn(Seq<char>) -> bool {
    |id: Seq<char>| news_event_option_field(id) == Some(f)
}

pub open spec fn news_event_option_known() -> spec_fn(Seq<char>) -> bool {
    |id: Seq<char>| news_event_option_field(id) is Some
}

fn news_event_option_field_of(id: &str) -> (r: Option<NewsEventOptionField>)
    ensures
        r == news_event_option_field(id@),
{
    if same_text(id, "name") {
        Some(NewsEventOptionField::Name)
    } else if same_text(id, "desc") {
        Some(NewsEventOptionField::Desc)
    } else if same_text(id, "log") {
        Some(NewsEventOptionField::Log)
    } else if same_text(id, "hidden_effect") {
        Some(NewsEventOptionField::HiddenEffect)
    } else if same_text(id, "trigger") {
        Some(NewsEventOptionField::Trigger)
    } else {
        None
    }
}

#[derive(Debug)]
pub struct NewsEventOption {
    pub name: String,
    pub desc: String,
    pub log: String,
    pub hidden_effect: Option<ConfigValue>,
    pub trigger: Option<ConfigValue>,
    /// The last value of each identifier that no field takes.
    pub unknown: Table<ConfigValue>,
}

impl NewsEventOption {
    /// The record that the pairs `ps` describe: a field fed by one pair takes the
    /// last such pair; a list takes every such pair, in order.
    pub open spec fn projects(self, ps: Seq<SpecPair>) -> bool {
        &&& self.name@ == last_text(ps, news_event_option_is(NewsEventOptionField::Name))
        &&& self.desc@ == last_text(ps, news_event_option_is(NewsEventOptionField::Desc))
        &&& self.log@ == last_text(ps, news_event_option_is(NewsEventOptionField::Log))
        &&& view_option(self.hidden_effect)
            == last_where(ps, news_event_option_is(NewsEventOptionField::HiddenEffect))
        &&& view_option(self.trigger)
            == last_where(ps, news_event_option_is(NewsEventOptionField::Trigger))
        &&& view_table(self.unknown) == unknown_where(ps, news_event_option_known())
    }

    /// Record `k` of `rs` is the one that value `k` of `vs` describes.
    pub open spec fn projects_each(rs: Seq<NewsEventOption>, vs: Seq<SpecValue>) -> bool {
        &&& rs.len() == vs.len()
        &&& forall|k: int| 0 <= k < rs.len() ==> #[trigger] rs[k].projects(members(vs[k]))
    }

    /// The record that `ps` describes.
    pub fn from_pairs(ps: &Vec<ConfigPair>) -> (r: NewsEventOption)
        ensures
            r.projects(view_pairs(ps@)),
    {
        let ghost sps = view_pairs(ps@);
        let mut r = NewsEventOption::default();
        proof {
            lemma_view_pairs_len(ps@);
            assert(sps.subrange(0, 0) =~= Seq::<SpecPair>::empty());
        }
        let mut i: usize = 0;
        while i < ps.len()
            invariant
                sps == view_pairs(ps@),
                sps.len() == ps@.len(),
                i <= ps@.len(),
                r.projects(sps.subrange(0, i as int)),
            decreases ps.len() - i,
        {
            let p = &ps[i];
            proof {
                lemma_view_pairs_index(ps@, i as int);
                lemma_step(sps, i as int);
            }
            match news_event_option_field_of(p.identifier.as_str()) {
                Some(NewsEventOptionField::Name) => r.name = p.value.to_string(),
                Some(NewsEventOptionField::Desc) => r.desc = p.value.to_string(),
                Some(NewsEventOptionField::Log) => r.log = p.value.to_string(),
                Some(NewsEventOptionField::HiddenEffect) => {
                    r.hidden_effect = Some(p.value.duplicate());
                },
                Some(NewsEventOptionField::Trigger) => r.trigger = Some(p.value.duplicate()),
                None => record_unknown(&mut r.unknown, p),
            }
            i = i + 1;
        }
        assert(sps.subrange(0, sps.len() as int) =~= sps);
        r
    }

    /// The record that an object describes; the default record for any other value.
    pub fn new(value: &ConfigValue) -> (r: NewsEventOption)
        ensures
            r.projects(members(value@)),
    {
        match value {
            ConfigValue::Object(ps) => NewsEventOption::from_pairs(ps),
            _ => NewsEventOption::default(),
        }
    }
}

impl Default for NewsEventOption {
    /// The record of no pairs.
    fn default() -> (r: NewsEventOption)
        ensures
            r.projects(Seq::empty()),
    {
        let r = NewsEventOption {
            name: String::new(),
            desc: String::new(),
            log: String::new(),
            hidden_effect: None,
            trigger: None,
            unknown: Table::new(),
        };
        proof {
            lemma_empty_table(r.unknown);
        }
        r
    }
}

// ---------------------------------------------------------------------------
// NewsEvent
// ---------------------------------------------------------------------------

#[derive(Clone, Copy, Debug, PartialEq, Eq, Structural)]
pub enum NewsEventField {
    Id,
    Title,
    Desc,
    Picture,
    Major,
    IsTriggeredOnly,
    Option,
    Trigger,
    Ifs,
}

/// The field that an identifier sets in a record of this kind; identifiers are
/// compared with their case.
pub open spec fn news_event_field(id: Seq<char>) -> Option<NewsEventField> {
    if id == "id"@ {
        Some(NewsEventField::Id)
    } else if id == "title"@ {
        Some(NewsEventField::Title)
    } else if id == "desc"@ {
        Some(NewsEventField::Desc)
    } else if id == "picture"@ {
        Some(NewsEventField::Picture)
    } else if id == "major"@ {
        Some(NewsEventField::Major)
    } else if id == "is_triggered_only"@ {
        Some(NewsEventField::IsTriggeredOnly)
    } else if id == "option"@ {
        Some(NewsEventField::Option)
    } else if id == "trigger"@ {
        Some(NewsEventField::Trigger)
    } else if id == "ifs"@ {
        Some(NewsEventField::Ifs)
    } else {
        None
    }
}

pub open spec fn news_event_is(f: NewsEventField) -> spec_fn(Seq<char>) -> bool {
    |id: Seq<char>| news_event_field(id) == Some(f)
}

pub open spec fn news_event_known() -> spec_fn(Seq<char>) -> bool {
    |id: Seq<char>| news_event_field(id) is Some
}

fn news_event_field_of(id: &str) -> (r: Option<NewsEventField>)
    ensures
        r == news_event_field(id@),
{
    if same_text(id, "id") {
        Some(NewsEventField::Id)
    } else if same_text(id, "title") {
        Some(NewsEventField::Title)
    } else if same_text(id, "desc") {
        Some(NewsEventField::Desc)
    } else if same_text(id, "picture") {
        Some(NewsEventField::Picture)
    } else if same_text(id, "major") {
        Some(NewsEventField::Major)
    } else if same_text(id, "is_triggered_only") {
        Some(NewsEventField::IsTriggeredOnly)
    } else if same_text(id, "option") {
        Some(NewsEventField::Option)
    } else if same_text(id, "trigger") {
        Some(NewsEventField::Trigger)
    } else if same_text(id, "ifs") {
        Some(NewsEventField::Ifs)
    } else {
        None
    }
}

#[derive(Debug)]
pub struct NewsEvent {
    pub id: String,
    pub title: String,
    pub desc: String,
    pub picture: String,
    pub major: bool,
    pub is_triggered_only: bool,
    pub option: Vec<NewsEventOption>,
    pub trigger: Option<ConfigValue>,
    pub ifs: Vec<ConfigValue>,
    /// The last value of each identifier that no field takes.
    pub unknown: Table<ConfigValue>,
}

impl NewsEvent {
    /// The record that the pairs `ps` describe: a field fed by one pair takes the
    /// last such pair; a list takes every such pair, in order.
    pub open spec fn projects(self, ps: Seq<SpecPair>) -> bool {
        &&& self.id@ == last_text(ps, news_event_is(NewsEventField::Id))
        &&& self.title@ == last_text(ps, news_event_is(NewsEventField::Title))
        &&& self.desc@ == last_text(ps, news_event_is(NewsEventField::Desc))
        &&& self.picture@ == last_text(ps, news_event_is(NewsEventField::Picture))
        &&& self.major == last_bool(ps, news_event_is(NewsEventField::Major))
        &&& self.is_triggered_only == last_bool(ps, news_event_is(NewsEventField::IsTriggeredOnly))
        &&& NewsEventOption::projects_each(
            self.option@,
            all_where(ps, news_event_is(NewsEventField::Option)),
        )
        &&& view_option(self.trigger) == last_where(ps, news_event_is(NewsEventField::Trigger))
        &&& view_values(self.ifs@) == all_where(ps, news_event_is(NewsEventField::Ifs))
        &&& view_table(self.unknown) == unknown_where(ps, news_event_known())
    }

    /// Record `k` of `rs` is the one that value `k` of `vs` describes.
    pub open spec fn projects_each(rs: Seq<NewsEvent>, vs: Seq<SpecValue>) -> bool {
        &&& rs.len() == vs.len()
        &&& forall|k: int| 0 <= k < rs.len() ==> #[trigger] rs[k].projects(members(vs[k]))
    }

    /// The record that `ps` describes.
    pub fn from_pairs(ps: &Vec<ConfigPair>) -> (r: NewsEvent)
        ensures
            r.projects(view_pairs(ps@)),
    {
        let ghost sps = view_pairs(ps@);
        let mut r = NewsEvent::default();
        proof {
            lemma_view_pairs_len(ps@);
            assert(sps.subrange(0, 0) =~= Seq::<SpecPair>::empty());
        }
        let mut i: usize = 0;
        while i < ps.len()
            invariant
                sps == view_pairs(ps@),
                sps.len() == ps@.len(),
                i <= ps@.len(),
                r.projects(sps.subrange(0, i as int)),
            decreases ps.len() - i,
        {
            let p = &ps[i];
            proof {
                lemma_view_pairs_index(ps@, i as int);
                lemma_step(sps, i as int);
            }
            match news_event_field_of(p.identifier.as_str()) {
                Some(NewsEventField::Id) => r.id = p.value.to_string(),
                Some(NewsEventField::Title) => r.title = p.value.to_string(),
                Some(NewsEventField::Desc) => r.desc = p.value.to_string(),
                Some(NewsEventField::Picture) => r.picture = p.value.to_string(),
                Some(NewsEventField::Major) => r.major = p.value.to_bool(),
                Some(NewsEventField::IsTriggeredOnly) => r.is_triggered_only = p.value.to_bool(),
                Some(NewsEventField::Option) => {
                    let x = NewsEventOption::new(&p.value);
                    r.option.push(x);
                },
                Some(NewsEventField::Trigger) => r.trigger = Some(p.value.duplicate()),
                Some(NewsEventField::Ifs) => {
                    let v = p.value.duplicate();
                    proof {
                        lemma_view_values_push(r.ifs@, v);
                    }
                    r.ifs.push(v);
                },
                None => record_unknown(&mut r.unknown, p),
            }
            i = i + 1;
        }
        assert(sps.subrange(0, sps.len() as int) =~= sps);
        r
    }

    /// The record that an object describes; the default record for any other value.
    pub fn new(value: &ConfigValue) -> (r: NewsEvent)
        ensures
            r.projects(members(value@)),
    {
        match value {
            ConfigValue::Object(ps) => NewsEvent::from_pairs(ps),
            _ => NewsEvent::default(),
        }
    }
}

impl Default for NewsEvent {
    /// The record of no pairs.
    fn default() -> (r: NewsEvent)
        ensures
            r.projects(Seq::empty()),
    {
        let r = NewsEvent {
            id: String::new(),
            title: String::new(),
            desc: String::new(),
            picture: String::new(),
            major: false,
            is_triggered_only: false,
            option: Vec::new(),
            trigger: None,
            ifs: Vec::new(),
            unknown: Table::new(),
        };
        proof {
            lemma_empty_table(r.unknown);
            assert(view_values(r.ifs@) =~= Seq::<SpecValue>::empty());
        }
        r
    }
}

// ---------------------------------------------------------------------------
// Event
// ---------------------------------------------------------------------------

#[derive(Clone, Copy, Debug, PartialEq, Eq, Structural)]
pub enum EventField {
    Namespaces,
    CountryEvents,
    NewsEvents,
}

/// The field that an identifier sets in a record of this kind; identifiers are
/// compared with their case.
pub open spec fn event_field(id: Seq<char>) -> Option<EventField> {
    if id == "add_namespace"@ {
        Some(EventField::Namespaces)
    } else if id == "country_event"@ {
        Some(EventField::CountryEvents)
    } else if id == "news_event"@ {
        Some(EventField::NewsEvents)
    } else {
        None
    }
}

pub open spec fn event_is(f: EventField) -> spec_fn(Seq<char>) -> bool {
    |id: Seq<char>| event_field(id) == Some(f)
}

pub open spec fn event_known() -> spec_fn(Seq<char>) -> bool {
    |id: Seq<char>| event_field(id) is Some
}

fn event_field_of(id: &str) -> (r: Option<EventField>)
    ensures
        r == event_field(id@),
{
    if same_text(id, "add_namespace") {
        Some(EventField::Namespaces)
    } else if same_text(id, "country_event") {
        Some(EventField::CountryEvents)
    } else if same_text(id, "news_event") {
        Some(EventField::NewsEvents)
    } else {
        None
    }
}

/// The events of one event file.
#[derive(Debug)]
pub struct Event {
    pub namespaces: Vec<String>,
    pub country_events: Vec<ConfigValue>,
    pub news_events: Vec<NewsEvent>,
    /// The last value of each identifier that no field takes.
    pub unknown: Table<ConfigValue>,
}

impl Event {
    /// The record that the pairs `ps` describe: a field fed by one pair takes the
    /// last such pair; a list takes every such pair, in order.
    pub open spec fn projects(self, ps: Seq<SpecPair>) -> bool {
        &&& view_strings(self.namespaces@) == all_texts(ps, event_is(EventField::Namespaces))
        &&& view_values(self.country_events@) == all_where(ps, event_is(EventField::CountryEvents))
        &&& NewsEvent::projects_each(
            self.news_events@,
            all_where(ps, event_is(EventField::NewsEvents)),
        )
        &&& view_table(self.unknown) == unknown_where(ps, event_known())
    }

    /// The record that `ps` describes.
    pub fn new(ps: &Vec<ConfigPair>) -> (r: Event)
        ensures
            r.projects(view_pairs(ps@)),
    {
        let ghost sps = view_pairs(ps@);
        let mut r = Event::default();
        proof {
            lemma_view_pairs_len(ps@);
            assert(sps.subrange(0, 0) =~= Seq::<SpecPair>::empty());
        }
        let mut i: usize = 0;
        while i < ps.len()
            invariant
                sps == view_pairs(ps@),
                sps.len() == ps@.len(),
                i <= ps@.len(),
                r.projects(sps.subrange(0, i as int)),
            decreases ps.len() - i,
        {
            let p = &ps[i];
            proof {
                lemma_view_pairs_index(ps@, i as int);
                lemma_step(sps, i as int);
            }
            match event_field_of(p.identifier.as_str()) {
                Some(EventField::Namespaces) => {
                    let s = p.value.to_string();
                    proof {
                        lemma_view_strings_push(r.namespaces@, s);
                    }
                    r.namespaces.push(s);
                },
                Some(EventField::CountryEvents) => {
                    let v = p.value.duplicate();
                    proof {
                        lemma_view_values_push(r.country_events@, v);
                    }
                    r.country_events.push(v);
                },
                Some(EventField::NewsEvents) => {
                    let x = NewsEvent::new(&p.value);
                    r.news_events.push(x);
                },
                None => record_unknown(&mut r.unknown, p),
            }
            i = i + 1;
        }
        assert(sps.subrange(0, sps.len() as int) =~= sps);
        r
    }
}

impl Default for Event {
    /// The record of no pairs.
    fn default() -> (r: Event)
        ensures
            r.projects(Seq::empty()),
    {
        let r = Event {
            namespaces: Vec::new(),
            country_events: Vec::new(),
            news_events: Vec::new(),
            unknown: Table::new(),
        };
        proof {
            lemma_empty_table(r.unknown);
            assert(view_strings(r.namespaces@) =~= Seq::<Seq<char>>::empty());
            assert(view_values(r.country_events@) =~= Seq::<SpecValue>::empty());
        }
        r
    }
}
} // verus!
