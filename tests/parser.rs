use clausewitz::{parse_config_file, ConfigPair, ConfigValue, Decimal, Expected};

fn num(n: i64) -> ConfigValue {
    ConfigValue::Number(Decimal::from_int(n))
}

fn dec(negative: bool, magnitude: u64, scale: u32) -> ConfigValue {
    ConfigValue::Number(Decimal::from_parts(negative, magnitude, scale).unwrap())
}

fn text(s: &str) -> ConfigValue {
    ConfigValue::String(s.to_string())
}

fn ident(s: &str) -> ConfigValue {
    ConfigValue::Identifier(s.to_string())
}

fn pair(identifier: &str, sign: &str, value: ConfigValue) -> ConfigPair {
    ConfigPair { identifier: identifier.to_string(), sign: sign.to_string(), value }
}

#[test]
fn test_parse_config_file() {
    let input = r#"
            key1 = "value1"
            key2 = 42
            key3 = yes
            key4 = no
            key5 = 3.14
            key6 = { 1 2 3 }
            key7 = {
                key8 = "value8"
                key9 = 84
                key10 = yes
                key11 = no
                key12 = 3.41
                key13 = { 4 5 6 }
            }
            key14 = identifier_123
            key15 < 1
        "#;

    let cfg = parse_config_file(input).unwrap();

    assert_eq!(cfg.len(), 9);

    assert_eq!(cfg[0].identifier, "key1");
    assert_eq!(cfg[0].value, text("value1"));

    assert_eq!(cfg[1].identifier, "key2");
    assert_eq!(cfg[1].value, num(42));

    assert_eq!(cfg[2].identifier, "key3");
    assert_eq!(cfg[2].value, ident("yes"));

    assert_eq!(cfg[3].identifier, "key4");
    assert_eq!(cfg[3].value, ident("no"));

    assert_eq!(cfg[4].identifier, "key5");
    assert_eq!(cfg[4].value, dec(false, 314, 2));

    assert_eq!(cfg[5].identifier, "key6");
    assert_eq!(cfg[5].value, ConfigValue::Array(vec![num(1), num(2), num(3)]));

    assert_eq!(cfg[6].identifier, "key7");
    assert_eq!(
        cfg[6].value,
        ConfigValue::Object(vec![
            pair("key8", "=", text("value8")),
            pair("key9", "=", num(84)),
            pair("key10", "=", ident("yes")),
            pair("key11", "=", ident("no")),
            pair("key12", "=", dec(false, 341, 2)),
            pair("key13", "=", ConfigValue::Array(vec![num(4), num(5), num(6)])),
        ])
    );

    assert_eq!(cfg[7].identifier, "key14");
    assert_eq!(cfg[7].value, ident("identifier_123"));

    assert_eq!(cfg[8].identifier, "key15");
    assert_eq!(cfg[8].sign, "<");
    assert_eq!(cfg[8].value, num(1));
}

#[test]
fn test_parse_config_file_error() {
    let input = r#"
            key1 = "value1"
            key2 = 42
            key3 = yes
            key4 = no
            key5 = 3.14
            key6 = { 1 2 3 }
            key7 = {
                key8 = "value8"
                key9 = 84
                key10 = yes
                key11 = no
                key12 = 3.41
                key13 = { 4 5 6 }
        "#;

    let cfg = parse_config_file(input);
    assert!(cfg.is_err());
}

#[test]
fn test_parse_config_file_empty() {
    let input = r#""#;

    let cfg = parse_config_file(input);
    assert!(cfg.is_ok());
    assert_eq!(cfg.unwrap().len(), 0);
}

#[test]
fn test_parse_config_file_empty_line() {
    let input = r#"
        "#;

    let cfg = parse_config_file(input);
    assert!(cfg.is_ok());
    assert_eq!(cfg.unwrap().len(), 0);
}

#[test]
fn test_parse_config_file_object_in_object() {
    let input = r#"
            key1 = {
                key2 = {
                    key3 = "value3"
                }
            }
        "#;

    let cfg = parse_config_file(input).unwrap();

    assert_eq!(cfg.len(), 1);

    assert_eq!(cfg[0].identifier, "key1");
    assert_eq!(
        cfg[0].value,
        ConfigValue::Object(vec![pair(
            "key2",
            "=",
            ConfigValue::Object(vec![pair("key3", "=", text("value3"))])
        )])
    );
}

#[test]
fn test_parse_config_file_comment() {
    let input = r#"
            key1 = "value1" # comment
            # key2 = "value2"
        "#;

    let cfg = parse_config_file(input).unwrap();

    assert_eq!(cfg.len(), 1);

    assert_eq!(cfg[0].identifier, "key1");
    assert_eq!(cfg[0].value, text("value1"));
}

#[test]
fn test_configvalue_display() {
    let value = text("value1");
    assert_eq!(value.render(), "\"value1\"");

    let value = num(42);
    assert_eq!(value.render(), "42");

    let value = ident("identifier_123");
    assert_eq!(value.render(), "identifier_123");

    let value = ConfigValue::Array(vec![num(1), num(2), num(3)]);
    assert_eq!(value.render(), "{ 1 2 3 }");

    let value = ConfigValue::Object(vec![
        pair("key8", "=", text("value8")),
        pair("key9", "=", num(84)),
        pair("key12", "=", dec(false, 341, 2)),
        pair("key13", "=", ConfigValue::Array(vec![num(4), num(5), num(6)])),
    ]);
    assert_eq!(
        value.render(),
        "{\n   key8 = \"value8\"\n   key9 = 84\n   key12 = 3.41\n   key13 = { 4 5 6 }\n}"
    );
}

#[test]
fn test_configpair_display() {
    let pair = pair("key1", "=", text("value1"));
    assert_eq!(pair.render(), "key1 = \"value1\"\n");
}

#[test]
fn whitespace_only_input_has_no_pairs() {
    let cfg = parse_config_file(" \t\r\n  \n").unwrap();
    assert!(cfg.is_empty());
}

#[test]
fn pair_count_follows_top_level_assignments() {
    let cfg = parse_config_file("a = 1 b = { c = 2 d = 3 } e < 4").unwrap();
    assert_eq!(cfg.len(), 3);
    assert_eq!(cfg[0].identifier, "a");
    assert_eq!(cfg[1].identifier, "b");
    assert_eq!(cfg[2].identifier, "e");
}

#[test]
fn rerender_drops_trailing_zeros() {
    let cfg = parse_config_file("pi = 3.140").unwrap();
    assert_eq!(cfg[0].value, dec(false, 314, 2));
    assert_eq!(cfg[0].render(), "pi = 3.14\n");
}

#[test]
fn nesting_is_kept() {
    let cfg = parse_config_file("a = { b = { c = \"x\" } }").unwrap();
    assert_eq!(
        cfg,
        vec![pair(
            "a",
            "=",
            ConfigValue::Object(vec![pair(
                "b",
                "=",
                ConfigValue::Object(vec![pair("c", "=", text("x"))])
            )])
        )]
    );
}

#[test]
fn relational_sign_is_kept() {
    let cfg = parse_config_file("threshold < 5").unwrap();
    assert_eq!(cfg.len(), 1);
    assert_eq!(cfg[0].sign, "<");
    assert_eq!(cfg[0].value, num(5));
    let cfg = parse_config_file("a >= 2 b <= 3 c != 4 d == 5 e > 6").unwrap();
    let signs: Vec<&str> = cfg.iter().map(|p| p.sign.as_str()).collect();
    assert_eq!(signs, vec![">=", "<=", "!=", "==", ">"]);
}

#[test]
fn unterminated_object_is_an_error() {
    let e = parse_config_file("a = { b = 1").unwrap_err();
    assert_eq!(e.expected, Expected::KeyOrClose);
    assert_eq!(e.offset, 11);
}

#[test]
fn each_syntax_error_is_located() {
    let e = parse_config_file("= 5").unwrap_err();
    assert_eq!((e.expected, e.offset), (Expected::Key, 0));
    let e = parse_config_file("a 5").unwrap_err();
    assert_eq!((e.expected, e.offset), (Expected::Sign, 2));
    let e = parse_config_file("a = }").unwrap_err();
    assert_eq!((e.expected, e.offset), (Expected::Value, 4));
    let e = parse_config_file("a =").unwrap_err();
    assert_eq!((e.expected, e.offset), (Expected::Value, 3));
    let e = parse_config_file("a = { 1 2").unwrap_err();
    assert_eq!((e.expected, e.offset), (Expected::ValueOrClose, 9));
    let e = parse_config_file("a = \"open").unwrap_err();
    assert_eq!((e.expected, e.offset), (Expected::ClosingQuote, 4));
    let e = parse_config_file("a ! 5").unwrap_err();
    assert_eq!((e.expected, e.offset), (Expected::Equals, 3));
    let e = parse_config_file("a = 123456789012345678901234").unwrap_err();
    assert_eq!((e.expected, e.offset), (Expected::NumberInRange, 4));
    let e = parse_config_file("a = 70000.1.1").unwrap_err();
    assert_eq!((e.expected, e.offset), (Expected::DateInRange, 4));
}

#[test]
fn error_line_and_column_count_from_zero() {
    let e = parse_config_file("a = 1\nb = 2\n  c d").unwrap_err();
    assert_eq!(e.expected, Expected::Sign);
    assert_eq!(e.offset, 16);
    assert_eq!(e.line, 2);
    assert_eq!(e.column, 4);
}

#[test]
fn dates_and_named_values() {
    let cfg = parse_config_file("1939.1.1 = { start = 1936.1.1 } color = rgb { 10 20 30 }").unwrap();
    assert_eq!(cfg[0].identifier, "1939.1.1");
    assert_eq!(
        cfg[0].value,
        ConfigValue::Object(vec![pair("start", "=", ConfigValue::Date(1936, 1, 1))])
    );
    assert_eq!(cfg[0].value.render(), "{\n   start = 1936.1.1\n}");
    assert_eq!(
        cfg[1].value,
        ConfigValue::Named("rgb".to_string(), vec![num(10), num(20), num(30)])
    );
    assert_eq!(cfg[1].value.render(), "rgb 10 20 30 ");
}

#[test]
fn numbers_are_exact_decimals() {
    let cfg = parse_config_file("a = -0.050 b = +7 c = -0 d = 1.000 e = 007").unwrap();
    assert_eq!(cfg[0].value, dec(true, 5, 2));
    assert_eq!(cfg[0].value.render(), "-0.05");
    assert_eq!(cfg[1].value, num(7));
    assert_eq!(cfg[2].value, num(0));
    assert_eq!(cfg[3].value, num(1));
    assert_eq!(cfg[4].value, num(7));
    assert_eq!(num(-1000).render(), "-1000");
    assert_eq!(dec(false, 12345, 1).render(), "1234.5");
    assert!(Decimal::from_parts(false, 10, 1).is_none());
    assert!(Decimal::from_parts(true, 0, 0).is_none());
}

#[test]
fn quoted_text_keeps_escapes_and_empty_braces_are_objects() {
    let cfg = parse_config_file(r#"a = "say \"hi\"" b = { } c = "" "#).unwrap();
    assert_eq!(cfg[0].value, text(r#"say \"hi\""#));
    assert_eq!(cfg[1].value, ConfigValue::Object(vec![]));
    assert_eq!(cfg[2].value, text(""));
}

#[test]
fn words_hold_punctuation() {
    let cfg = parse_config_file("has_flag = var:my_flag@ROOT value = -some.thing").unwrap();
    assert_eq!(cfg[0].value, ident("var:my_flag@ROOT"));
    assert_eq!(cfg[1].value, ident("-some.thing"));
}
