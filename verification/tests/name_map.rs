use timetracker::name_map::NameMap;
use timetracker::text::{join_words, same_text, split_words, starts_with_text, text_from, text_place, Place};

#[test]
fn a_map_keeps_its_names_in_order() {
    let mut map: NameMap<u32> = NameMap::new();
    assert_eq!(map.len(), 0);
    for (name, value) in [("b", 2), ("", 0), ("a", 1), ("ab", 12), ("B", 20), ("é", 30), ("z", 26)] {
        map.insert(name.to_string(), value);
    }
    assert_eq!(map.len(), 7);
    let names: Vec<&str> = (0..map.len()).map(|i| map.name_at(i).as_str()).collect();
    assert_eq!(names, vec!["", "B", "a", "ab", "b", "z", "é"]);
    let values: Vec<u32> = (0..map.len()).map(|i| *map.value_at(i)).collect();
    assert_eq!(values, vec![0, 20, 1, 12, 2, 26, 30]);
}

#[test]
fn a_map_holds_one_value_for_a_name() {
    let mut map: NameMap<u32> = NameMap::new();
    map.insert("a".to_string(), 1);
    map.insert("b".to_string(), 2);
    map.insert("a".to_string(), 3);
    assert_eq!(map.len(), 2);
    assert_eq!(map.get("a"), Some(&3));
    assert_eq!(map.get("b"), Some(&2));
    assert_eq!(map.get("c"), None);
    assert!(map.contains_key("a"));
    assert!(!map.contains_key("A"));
    map.set_value_at(1, 5);
    assert_eq!(map.get("b"), Some(&5));
    assert_eq!(map.remove("a"), Some(3));
    assert_eq!(map.remove("a"), None);
    assert_eq!(map.len(), 1);
    assert_eq!(map.name_at(0), "b");
}

#[test]
fn maps_with_the_same_entries_are_equal() {
    let mut one: NameMap<u32> = NameMap::new();
    let mut other: NameMap<u32> = NameMap::new();
    for (name, value) in [("x", 1), ("y", 2), ("z", 3)] {
        one.insert(name.to_string(), value);
    }
    for (name, value) in [("z", 3), ("x", 0), ("y", 2), ("w", 9), ("x", 1)] {
        other.insert(name.to_string(), value);
    }
    assert_ne!(one, other);
    other.remove("w");
    assert_eq!(one, other);
}

#[test]
fn places_of_texts() {
    assert_eq!(text_place("", ""), Place::Same);
    assert_eq!(text_place("abc", "abc"), Place::Same);
    assert_eq!(text_place("", "a"), Place::Before);
    assert_eq!(text_place("a", ""), Place::After);
    assert_eq!(text_place("ab", "abc"), Place::Before);
    assert_eq!(text_place("abd", "abc"), Place::After);
    assert_eq!(text_place("Z", "a"), Place::Before);
    assert_eq!(text_place("z", "é"), Place::Before);
    assert_eq!(text_place("\u{ffff}", "\u{10000}"), Place::Before);
    assert!(same_text("é", "é"));
    assert!(!same_text("e", "é"));
}

#[test]
fn words_of_lines() {
    let words = |line: &str| split_words(line);
    assert_eq!(words(""), Vec::<String>::new());
    assert_eq!(words(" \t\n"), Vec::<String>::new());
    assert_eq!(words("one"), vec!["one"]);
    assert_eq!(words("  one  two\tthree\u{3000}"), vec!["one", "two", "three"]);
    assert_eq!(words("a\u{85}b\u{1680}c\u{2028}d\u{202f}e\u{205f}f"), vec!["a", "b", "c", "d", "e", "f"]);
    // these are no white space
    assert_eq!(words("a\u{200b}b\u{feff}c\u{1c}d"), vec!["a\u{200b}b\u{feff}c\u{1c}d"]);
    for c in (0..=0x3100u32).filter_map(char::from_u32) {
        let text = format!("a{}b", c);
        assert_eq!(words(&text).len() == 2, c.is_whitespace());
    }
}

#[test]
fn joining_and_cutting() {
    let list = |words: &[&str]| words.iter().map(|s| s.to_string()).collect::<Vec<String>>();
    assert_eq!(join_words(&list(&[]), ", "), "");
    assert_eq!(join_words(&list(&["a"]), ", "), "a");
    assert_eq!(join_words(&list(&["a", "", "c"]), ", "), "a, , c");
    assert_eq!(join_words(&list(&["", "b"]), "-"), "-b");
    assert!(starts_with_text("resume:3", "resume:"));
    assert!(starts_with_text("resume:", "resume:"));
    assert!(starts_with_text("anything", ""));
    assert!(!starts_with_text("resume", "resume:"));
    assert!(!starts_with_text("Resume:3", "resume:"));
    assert_eq!(text_from("résumé", 2), "sumé");
    assert_eq!(text_from("abc", 0), "abc");
    assert_eq!(text_from("abc", 3), "");
    assert_eq!(text_from("abc", 4), "");
}
