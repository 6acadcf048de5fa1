use clausewitz::{
    parse_countries, parse_events, parse_focustrees, parse_game, parse_hoi4, parse_stellaris,
    ConfigValue, Decimal, Expected, SourceFile, Table,
};

fn file(name: &str, text: &str) -> SourceFile {
    SourceFile { name: name.to_string(), text: text.to_string() }
}

#[test]
fn broken_file_is_isolated() {
    let files = vec![
        file("good_one", "a = 1"),
        file("broken", "a = { b = 1"),
        file("good_two", "c = { d = yes }"),
    ];
    let c = parse_game(&files);
    assert_eq!(c.entries.len(), 2);
    assert!(c.entries.get("broken").is_none());
    assert_eq!(c.entries.get("good_one").unwrap().len(), 1);
    assert_eq!(c.entries.get("good_two").unwrap()[0].identifier, "c");
    assert_eq!(c.failures.len(), 1);
    assert_eq!(c.failures[0].name, "broken");
    assert_eq!(c.failures[0].error.expected, Expected::KeyOrClose);
}

#[test]
fn empty_files_are_dropped_and_later_names_win() {
    let files = vec![
        file("same", "a = 1"),
        file("empty", "# only a comment\n"),
        file("same", "b = 2 c = 3"),
    ];
    let c = parse_game(&files);
    assert_eq!(c.entries.len(), 1);
    assert_eq!(c.entries.get("same").unwrap().len(), 2);
    assert!(c.failures.is_empty());
}

#[test]
fn typed_catalogs() {
    let files = vec![file("GER", "capital = 64"), file("bad", "capital = "), file("ENG", "capital = 126")];
    let c = parse_countries(&files);
    assert_eq!(c.entries.len(), 2);
    assert_eq!(c.entries.get("GER").unwrap().capital, 64);
    assert_eq!(c.entries.get("ENG").unwrap().capital, 126);
    assert_eq!(c.failures.len(), 1);

    let e = parse_events(&vec![file("ev", "add_namespace = x")]);
    assert_eq!(e.entries.get("ev").unwrap().namespaces, vec!["x"]);

    let f = parse_focustrees(&vec![file("ft", "focus_tree = { id = t }")]);
    assert_eq!(f.entries.get("ft").unwrap().focus_tree.id, "t");

    let h = parse_hoi4(&files);
    assert_eq!(h.countries.len(), 2);
    assert_eq!(h.events.len(), 0);
    assert_eq!(h.focustree.len(), 0);
    assert_eq!(h.failures.len(), 1);
}

#[test]
fn stellaris_variables_last_wins_across_files() {
    let files = vec![
        file("a", "@x = 1 @y = 2"),
        file("b", "@x = 3 broken ="),
        file("c", "@x = 4"),
    ];
    let s = parse_stellaris(&files);
    assert_eq!(s.variables.len(), 2);
    assert_eq!(s.variables.get("@x"), Some(&ConfigValue::Number(Decimal::from_int(4))));
    assert_eq!(s.variables.get("@y"), Some(&ConfigValue::Number(Decimal::from_int(2))));
    assert_eq!(s.failures.len(), 1);
    assert_eq!(s.failures[0].name, "b");
}

#[test]
fn table_replaces_and_lists() {
    let mut t: Table<u32> = Table::new();
    t.insert("a".to_string(), 1);
    t.insert("b".to_string(), 2);
    t.insert("a".to_string(), 3);
    assert_eq!(t.len(), 2);
    assert_eq!(t.get("a"), Some(&3));
    assert_eq!(t.get("c"), None);
    let names: Vec<&str> = t.entries().iter().map(|(n, _)| n.as_str()).collect();
    assert_eq!(names, vec!["a", "b"]);
}
