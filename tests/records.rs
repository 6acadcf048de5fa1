use clausewitz::{
    parse_config_file, ConfigPair, ConfigValue, Country, CountryLeader, Decimal, Equipment, Event,
    Focus, FocusTreeBase, NewsEvent, Politics, Popularities,
};

fn pairs(text: &str) -> Vec<ConfigPair> {
    parse_config_file(text).unwrap()
}

#[test]
fn country_alias_last_wins() {
    let c = Country::new(&pairs("oob = \"A\" set_oob = \"B\""));
    assert_eq!(c.oob, "B");
    assert_eq!(c.unknown.len(), 0);
    assert!(c.unknown.get("oob").is_none());
    assert!(c.unknown.get("set_oob").is_none());
    let c = Country::new(&pairs("OOB = \"C\""));
    assert_eq!(c.oob, "C");
}

#[test]
fn country_accumulates_recruits_in_order() {
    let c = Country::new(&pairs(
        "recruit_character = \"X\" recruit_character = \"Y\" recruit_character = Z",
    ));
    assert_eq!(c.recruit_characters, vec!["X", "Y", "Z"]);
}

#[test]
fn country_captures_unknown_fields() {
    let c = Country::new(&pairs("totally_unknown_field = 42"));
    assert_eq!(c.unknown.len(), 1);
    assert_eq!(
        c.unknown.get("totally_unknown_field"),
        Some(&ConfigValue::Number(Decimal::from_int(42)))
    );
    let d = Country::default();
    assert_eq!(c.capital, d.capital);
    assert_eq!(c.oob, d.oob);
    assert_eq!(c.research_slots, d.research_slots);
    assert_eq!(c.stability, d.stability);
    assert!(c.ifs.is_empty() && c.recruit_characters.is_empty() && c.stockpile.is_empty());
    assert!(c.technology.is_empty() && c.ideas.is_empty() && c.variables.is_empty());
    assert_eq!(c.politics.ruling_party, "");
    assert_eq!(c.popularities.fascism, 0);
}

#[test]
fn unknown_bag_keeps_last_value() {
    let c = Country::new(&pairs("foo = 1 bar = 2 foo = 3"));
    assert_eq!(c.unknown.len(), 2);
    assert_eq!(c.unknown.get("foo"), Some(&ConfigValue::Number(Decimal::from_int(3))));
    assert_eq!(c.unknown.get("bar"), Some(&ConfigValue::Number(Decimal::from_int(2))));
}

#[test]
fn country_fields_are_projected() {
    let text = r#"
        capital = 64
        set_research_slots = 3
        set_convoys = 70000
        starting_train_buffer = -4
        set_stability = 0.65
        set_war_support = 0.3
        add_command_power = 12.9
        if = { limit = { has_dlc = "x" } }
        IF = { a = b }
        1939.1.1 = { x = 1 }
        set_politics = { ruling_party = neutrality last_election = "1936.1.1" election_frequency = 48 elections_allowed = no }
        set_popularities = { democratic = 20 fascism = 5 communism = 10 neutrality = 65 }
        set_technology = { infantry_weapons = 1 tech_support = 1 }
        add_ideas = { idea_one idea_two }
        add_equipment_to_stockpile = { type = infantry_equipment_1 amount = 500 producer = GER }
        add_equipment_to_stockpile = 7
        create_country_leader = { name = "Leader" ideology = despotism traits = { trait_a trait_b } }
        set_variable = { v = 1 }
    "#;
    let c = Country::new(&pairs(text));
    assert_eq!(c.capital, 64);
    assert_eq!(c.research_slots, 3);
    assert_eq!(c.convoys, 65535);
    assert_eq!(c.trains, 0);
    assert_eq!(c.stability, Decimal::from_parts(false, 65, 2).unwrap());
    assert_eq!(c.war_support, Decimal::from_parts(false, 3, 1).unwrap());
    assert_eq!(c.command_power, 12);
    assert_eq!(c.ifs.len(), 2);
    assert_eq!(c.start_1939.len(), 1);
    assert_eq!(c.politics.ruling_party, "neutrality");
    assert_eq!(c.politics.last_election, "1936.1.1");
    assert_eq!(c.politics.election_frequency, 48);
    assert!(!c.politics.elections_allowed);
    assert_eq!(c.popularities.democracy, 20);
    assert_eq!(c.popularities.fascism, 5);
    assert_eq!(c.popularities.communism, 10);
    assert_eq!(c.popularities.neutrality, 65);
    assert_eq!(c.technology, vec!["infantry_weapons", "tech_support"]);
    assert_eq!(c.ideas, vec!["idea_one", "idea_two"]);
    assert_eq!(c.stockpile.len(), 2);
    assert_eq!(c.stockpile[0].name, "infantry_equipment_1");
    assert_eq!(c.stockpile[0].amount, 500);
    assert_eq!(c.stockpile[0].producer, "GER");
    assert_eq!(c.stockpile[1].name, "");
    assert_eq!(c.created_country_leaders.len(), 1);
    assert_eq!(c.created_country_leaders[0].name, "Leader");
    assert_eq!(c.created_country_leaders[0].ideology, "despotism");
    assert_eq!(c.created_country_leaders[0].traits, vec!["trait_a", "trait_b"]);
    assert_eq!(c.variables.len(), 1);
    assert_eq!(c.variables[0].identifier, "set_variable");
    assert_eq!(c.unknown.len(), 0);
}

#[test]
fn nested_records_default_on_non_objects() {
    let v = ConfigValue::Identifier("yes".to_string());
    let p = Politics::new(&v);
    assert_eq!(p.ruling_party, "");
    assert_eq!(p.election_frequency, 0);
    assert_eq!(Popularities::new(&v).communism, 0);
    assert_eq!(Equipment::new(&v).amount, 0);
    assert!(CountryLeader::new(&v).traits.is_empty());
    let p = Politics::new(&ConfigValue::Object(pairs("odd = 1 elections_allowed = yes")));
    assert!(p.elections_allowed);
    assert_eq!(p.unknown.len(), 1);
}

#[test]
fn events_are_projected() {
    let text = r#"
        add_namespace = usa
        add_namespace = "ger"
        country_event = { id = usa.1 }
        news_event = {
            id = news.1
            title = news.1.t
            major = yes
            is_triggered_only = yes
            trigger = { tag = GER }
            option = { name = news.1.a log = "[GetDateText]" hidden_effect = { x = 1 } }
            option = { name = news.1.b }
            ifs = { a = 1 }
            mystery = 3
        }
        something_else = yes
    "#;
    let e = Event::new(&pairs(text));
    assert_eq!(e.namespaces, vec!["usa", "ger"]);
    assert_eq!(e.country_events.len(), 1);
    assert_eq!(e.news_events.len(), 1);
    let n = &e.news_events[0];
    assert_eq!(n.id, "news.1");
    assert_eq!(n.title, "news.1.t");
    assert!(n.major && n.is_triggered_only);
    assert!(n.trigger.is_some());
    assert_eq!(n.option.len(), 2);
    assert_eq!(n.option[0].name, "news.1.a");
    assert_eq!(n.option[0].log, "[GetDateText]");
    assert!(n.option[0].hidden_effect.is_some());
    assert!(n.option[1].trigger.is_none());
    assert_eq!(n.ifs.len(), 1);
    assert_eq!(n.unknown.len(), 1);
    assert_eq!(e.unknown.len(), 1);
    assert!(NewsEvent::new(&ConfigValue::Identifier("x".to_string())).id.is_empty());
}

#[test]
fn focus_trees_are_projected() {
    let text = r#"
        focus_tree = {
            id = german_focus
            country = { factor = 0 }
            default = no
            reset_on_civilwar = yes
            focus = {
                id = GER_rhineland
                icon = GFX_goal
                x = 5
                y = -2
                cost = 10
                Bypass = { always = no }
                search_filters = { FOCUS_FILTER_POLITICAL }
                select_effect = { a = 1 }
                select_effect = { b = 2 }
                cancelable = yes
            }
            focus = { id = GER_second x = 99999999999 }
        }
        style = { name = s }
    "#;
    let b = FocusTreeBase::new(&pairs(text));
    assert_eq!(b.focus_tree.id, "german_focus");
    assert!(b.focus_tree.country.is_some());
    assert!(!b.focus_tree.default);
    assert!(b.focus_tree.reset_on_civilwar);
    assert_eq!(b.focus_tree.focus.len(), 2);
    let f = &b.focus_tree.focus[0];
    assert_eq!(f.id, "GER_rhineland");
    assert_eq!(f.icon, "GFX_goal");
    assert_eq!((f.x, f.y, f.cost), (5, -2, 10));
    assert!(f.bypass.is_some());
    assert_eq!(f.search_filters, vec!["FOCUS_FILTER_POLITICAL"]);
    assert_eq!(f.select_effect.len(), 2);
    assert!(f.cancelable);
    assert_eq!(b.focus_tree.focus[1].x, i32::MAX);
    assert_eq!(b.style.len(), 1);
    assert!(Focus::new(&ConfigValue::Array(vec![])).id.is_empty());
}

#[test]
fn coercions_saturate_and_default() {
    let v = |s: &str| parse_config_file(&format!("k = {}", s)).unwrap().remove(0).value;
    assert_eq!(v("300").to_u8(), 255);
    assert_eq!(v("-5").to_u8(), 0);
    assert_eq!(v("-3.7").to_i32(), -3);
    assert_eq!(v("200").to_i8(), 127);
    assert_eq!(v("-200").to_i8(), -128);
    assert_eq!(v("40000").to_i16(), 32767);
    assert_eq!(v("18446744073709551615").to_i64(), i64::MAX);
    assert_eq!(v("-18446744073709551615").to_i64(), i64::MIN);
    assert_eq!(v("70000").to_u16(), 65535);
    assert_eq!(v("yes").to_u16(), 0);
    assert_eq!(v("\"7\"").to_i32(), 0);
    assert!(v("yes").to_bool());
    assert!(!v("no").to_bool());
    assert!(!v("\"yes\"").to_bool());
    assert!(!v("1").to_bool());
    assert_eq!(v("\"quoted\"").to_string(), "quoted");
    assert_eq!(v("bare").to_string(), "bare");
    assert_eq!(v("1.50").to_string(), "1.5");
    assert_eq!(v("{ 1 2 }").to_string(), "{ 1 2 }");
    assert_eq!(v("2.5").to_decimal(), Decimal::from_parts(false, 25, 1).unwrap());
    assert_eq!(v("x").to_decimal(), Decimal::zero());
    assert_eq!(v("{ a \"b\" 3 { c } d }").to_strings(), vec!["a", "b", "d"]);
    assert_eq!(v("{ x = a y = 2 z = \"c\" }").to_strings(), vec!["a", "c"]);
    assert!(v("a").to_strings().is_empty());
    assert_eq!(v("{ x = 1 y = 2 }").get_identifiers_from_object(), vec!["x", "y"]);
    assert!(v("{ x y }").get_identifiers_from_object().is_empty());
}

#[test]
fn duplicate_is_equal() {
    let cfg = parse_config_file("a = { b = { 1 2 } c = rgb { 3 } d = 2.5 e = 1936.1.1 }").unwrap();
    assert_eq!(cfg[0].duplicate(), cfg[0]);
    assert_eq!(cfg[0].value.duplicate(), cfg[0].value);
}
