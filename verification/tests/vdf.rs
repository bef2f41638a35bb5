use torygg::vdf::{get, parse as parse_text};

fn key(parts: &[&str]) -> Vec<String> {
    parts.iter().map(|p| p.to_string()).collect()
}

#[test]
fn parse() {
    let buf = "\
\"basegroup\"
{
    \"key5\" \"value5\"
    \"empty\" \"\"
    \"key3\" \"value3\"
    \"subgroup\"
    {
        \"key1\" \"value1\"
    }
    \"othersubgroup\"
    {
        \"key2\" \"value2\"
    }
    \"key4\" \"value\n4\"
}
";

    let kv = parse_text(buf);
    assert_eq!(get(&kv, &key(&["basegroup", "key5"])).unwrap(), "value5");
    assert_eq!(get(&kv, &key(&["basegroup", "empty"])).unwrap(), "");
    assert_eq!(get(&kv, &key(&["basegroup", "key3"])).unwrap(), "value3");
    assert_eq!(get(&kv, &key(&["basegroup", "subgroup", "key1"])).unwrap(), "value1");
    assert_eq!(get(&kv, &key(&["basegroup", "othersubgroup", "key2"])).unwrap(), "value2");
    assert_eq!(get(&kv, &key(&["basegroup", "key4"])).unwrap(), "value\n4");
}

#[test]
fn parse_keeps_the_order_of_the_pairs() {
    let kv = parse_text("\"a\" { \"x\" \"1\" \"y\" \"2\" } \"z\" \"3\"");
    assert_eq!(kv.len(), 3);
    assert_eq!(kv[0], (key(&["a", "x"]), "1".to_string()));
    assert_eq!(kv[1], (key(&["a", "y"]), "2".to_string()));
    assert_eq!(kv[2], (key(&["z"]), "3".to_string()));
}

#[test]
fn parse_reads_escapes() {
    let kv = parse_text("\"k\" \"a\\tb\\\\c\\\"d\\ne\\xf\"");
    assert_eq!(get(&kv, &key(&["k"])).unwrap(), "a\tb\\c\"d\nef");
}

#[test]
fn get_returns_the_last_value_of_a_key() {
    let kv = parse_text("\"k\" \"first\" \"k\" \"second\"");
    assert_eq!(kv.len(), 2);
    assert_eq!(get(&kv, &key(&["k"])).unwrap(), "second");
    assert!(get(&kv, &key(&["missing"])).is_none());
}

#[test]
fn parse_of_nothing_is_empty() {
    assert!(parse_text("").is_empty());
    assert!(parse_text("\"only a key\"").is_empty());
}
