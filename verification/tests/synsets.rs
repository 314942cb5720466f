use rs_cinic_10_index::error::IndexError;
use rs_cinic_10_index::index::{parse_synset_map, ObjectClass, SynsetNode};
use rs_cinic_10_index::synset::{parse_line, ParsedLine};
use rs_cinic_10_index::synset_map::SynsetMap;

fn node(id: &str, class: ObjectClass, parent: Option<&str>, aliases: &[&str]) -> SynsetNode {
    SynsetNode {
        synset_id: id.to_string(),
        object_class: class,
        synset_base_id: parent.map(|p| p.to_string()),
        aliases: aliases.iter().map(|a| a.to_string()).collect(),
    }
}

#[test]
fn test_parse_synsets_from_reader() {
    let source = format!(
        "{dog}\n----n123: good boy\n------n1230: bestest boy\n----n9: cujo\n{cat}\n----n999: chonk\n",
        dog = ObjectClass::Dog.to_string(),
        cat = ObjectClass::Cat.to_string(),
    );

    let synset_map = parse_synset_map(&source).unwrap();

    assert_eq!(
        synset_map.get("n123").unwrap(),
        &SynsetNode {
            synset_id: "n123".to_string(),
            object_class: ObjectClass::Dog,
            synset_base_id: None,
            aliases: vec!["good boy".to_string()],
        }
    );

    assert_eq!(
        synset_map.get("n1230").unwrap(),
        &SynsetNode {
            synset_id: "n1230".to_string(),
            object_class: ObjectClass::Dog,
            synset_base_id: Some("n123".to_string()),
            aliases: vec!["bestest boy".to_string()],
        }
    );

    assert_eq!(
        synset_map.get("n9").unwrap(),
        &SynsetNode {
            synset_id: "n9".to_string(),
            object_class: ObjectClass::Dog,
            synset_base_id: None,
            aliases: vec!["cujo".to_string()],
        }
    );

    assert_eq!(
        synset_map.get("n999").unwrap(),
        &SynsetNode {
            synset_id: "n999".to_string(),
            object_class: ObjectClass::Cat,
            synset_base_id: None,
            aliases: vec!["chonk".to_string()],
        }
    );
}

#[test]
fn hierarchy_example_has_exactly_its_four_nodes() {
    let text = "dog\n----n123: good boy\n------n1230: bestest boy\n----n9: cujo\ncat\n----n999: chonk\n";
    let map = parse_synset_map(text).unwrap();
    assert_eq!(map.len(), 4);
    assert!(!map.is_empty());
    assert!(map.contains_key("n9"));
    assert!(!map.contains_key("dog"));
    assert!(map.get("n0").is_none());
}

#[test]
fn parent_is_nearest_line_above_with_smaller_depth() {
    let text = "dog\n-a: x\n--b: y\n---c: z\n--d: w\n-e: v\n--f: u\n----g: t\n---h: s\n";
    let map = parse_synset_map(text).unwrap();
    let parent = |id: &str| map.get(id).unwrap().synset_base_id.clone();
    assert_eq!(parent("a"), None);
    assert_eq!(parent("b"), Some("a".to_string()));
    assert_eq!(parent("c"), Some("b".to_string()));
    assert_eq!(parent("d"), Some("a".to_string()));
    assert_eq!(parent("e"), None);
    assert_eq!(parent("f"), Some("e".to_string()));
    assert_eq!(parent("g"), Some("f".to_string()));
    assert_eq!(parent("h"), Some("f".to_string()));
}

#[test]
fn siblings_share_their_dash_count() {
    let map = parse_synset_map("ship\n--p: a\n----q: b\n----r: c\n---s: d\n").unwrap();
    assert_eq!(map.get("q").unwrap().synset_base_id, Some("p".to_string()));
    assert_eq!(map.get("r").unwrap().synset_base_id, Some("p".to_string()));
    assert_eq!(map.get("s").unwrap().synset_base_id, Some("p".to_string()));
}

#[test]
fn class_header_opens_a_new_block() {
    let map = parse_synset_map("frog\n-a: x\n--b: y\nhorse\n--c: z\n").unwrap();
    assert_eq!(map.get("b").unwrap(), &node("b", ObjectClass::Frog, Some("a"), &["y"]));
    assert_eq!(map.get("c").unwrap(), &node("c", ObjectClass::Horse, None, &["z"]));
}

#[test]
fn reparsing_gives_the_same_mapping() {
    let text = "bird\n-n1: robin, thrush\n--n2: song thrush\ntruck\n-n3: lorry\n";
    let first = parse_synset_map(text).unwrap();
    let second = parse_synset_map(text).unwrap();
    assert_eq!(first.len(), second.len());
    for id in ["n1", "n2", "n3"] {
        assert_eq!(first.get(id), second.get(id));
    }
    assert_eq!(
        first.get("n1").unwrap(),
        &node("n1", ObjectClass::Bird, None, &["robin", "thrush"])
    );
}

#[test]
fn entry_before_any_header_fails() {
    assert_eq!(parse_synset_map("----n1: early\ndog\n").err(), Some(IndexError::ParseError));
    assert_eq!(parse_synset_map("\n  \n-n1: early\n").err(), Some(IndexError::ParseError));
    assert_eq!(parse_synset_map("-n1").err(), Some(IndexError::ParseError));
}

#[test]
fn unknown_class_header_fails() {
    assert_eq!(parse_synset_map("dog\n-n1: a\nwolf\n-n2: b\n").err(), Some(IndexError::ParseError));
    assert_eq!(parse_synset_map("Dog\n").err(), Some(IndexError::ParseError));
}

#[test]
fn entry_without_colon_fails() {
    assert_eq!(parse_synset_map("dog\n--n1 no colon here\n").err(), Some(IndexError::ParseError));
}

#[test]
fn blank_lines_and_missing_final_newline_are_fine() {
    let map = parse_synset_map("\ncat\n\n   \n-n1: tom\r\n\n--n2: kitten").unwrap();
    assert_eq!(map.len(), 2);
    assert_eq!(map.get("n1").unwrap(), &node("n1", ObjectClass::Cat, None, &["tom"]));
    assert_eq!(map.get("n2").unwrap(), &node("n2", ObjectClass::Cat, Some("n1"), &["kitten"]));
    assert_eq!(parse_synset_map("").unwrap().len(), 0);
    assert_eq!(parse_synset_map("\n\n").unwrap().len(), 0);
}

#[test]
fn later_line_with_same_identifier_stands() {
    let map = parse_synset_map("deer\n-n1: first\n--n2: child\ndog\n---n1: second\n").unwrap();
    assert_eq!(map.len(), 2);
    assert_eq!(map.get("n1").unwrap(), &node("n1", ObjectClass::Dog, None, &["second"]));
    assert_eq!(map.get("n2").unwrap().synset_base_id, Some("n1".to_string()));
}

#[test]
fn empty_alias_segment_is_one_empty_alias() {
    let map = parse_synset_map("dog\n-n1:\n-n2:   \n-n3: a,,b ,\n").unwrap();
    assert_eq!(map.get("n1").unwrap().aliases, vec!["".to_string()]);
    assert_eq!(map.get("n2").unwrap().aliases, vec!["".to_string()]);
    assert_eq!(
        map.get("n3").unwrap().aliases,
        vec!["a".to_string(), "".to_string(), "b".to_string(), "".to_string()]
    );
}

#[test]
fn line_is_split_at_the_first_colon() {
    assert_eq!(
        parse_line("  ---n7: a: b, c\u{a0}\t"),
        ParsedLine::Entry {
            depth: 3,
            id: "n7".to_string(),
            aliases: vec!["a: b".to_string(), "c".to_string()],
        }
    );
    assert_eq!(
        parse_line("- n8 :x"),
        ParsedLine::Entry { depth: 1, id: " n8 ".to_string(), aliases: vec!["x".to_string()] }
    );
    assert_eq!(parse_line("   "), ParsedLine::Blank);
    assert_eq!(parse_line(" truck "), ParsedLine::Header(ObjectClass::Truck));
    assert_eq!(parse_line("lorry"), ParsedLine::UnknownHeader);
    assert_eq!(parse_line("cat-"), ParsedLine::UnknownHeader);
    assert_eq!(parse_line("----"), ParsedLine::Malformed);
    assert_eq!(
        parse_line("--:"),
        ParsedLine::Entry { depth: 2, id: "".to_string(), aliases: vec!["".to_string()] }
    );
}

#[test]
fn store_replaces_under_the_same_key() {
    let mut map = SynsetMap::new();
    assert!(map.is_empty());
    map.insert("k".to_string(), node("k", ObjectClass::Cat, None, &["one"]));
    map.insert("j".to_string(), node("j", ObjectClass::Dog, None, &[]));
    map.insert("k".to_string(), node("k", ObjectClass::Ship, Some("j"), &["two"]));
    assert_eq!(map.len(), 2);
    assert_eq!(map.get("k").unwrap(), &node("k", ObjectClass::Ship, Some("j"), &["two"]));
    assert_eq!(map.get("j").unwrap(), &node("j", ObjectClass::Dog, None, &[]));
    assert!(map.get("").is_none());
    let mut keys: Vec<&str> = map.entries().iter().map(|(key, _)| key.as_str()).collect();
    keys.sort();
    assert_eq!(keys, vec!["j", "k"]);
    for (key, node) in map.entries() {
        assert_eq!(map.get(key), Some(node));
    }
}
