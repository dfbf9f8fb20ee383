use toml_scaffold::{Directive, FieldPath, PathMap, PathSet};

fn path(segments: &[&str]) -> FieldPath {
    FieldPath::from_vec(segments.iter().map(|s| s.to_string()).collect())
}

#[test]
fn set_keeps_first_insertion_order_without_repeats() {
    let mut set = PathSet::new();
    assert_eq!(set.len(), 0);
    assert!(set.insert(path(&["b"])));
    assert!(set.insert(path(&["a"])));
    assert!(!set.insert(path(&["b"])));
    assert!(set.insert(path(&["a", "b"])));
    assert_eq!(set.len(), 3);
    assert_eq!(set.get(0), Some(&path(&["b"])));
    assert_eq!(set.get(1), Some(&path(&["a"])));
    assert_eq!(set.get(2), Some(&path(&["a", "b"])));
    assert_eq!(set.get(3), None);
    assert!(set.contains(&path(&["a"])));
    assert!(!set.contains(&path(&["c"])));
    assert!(!set.contains(&FieldPath::new()));
}

#[test]
fn set_tells_dotted_segment_from_two_segments() {
    let mut set = PathSet::new();
    set.insert(path(&["a.b"]));
    assert!(!set.contains(&path(&["a", "b"])));
    assert!(set.insert(path(&["a", "b"])));
    assert_eq!(set.len(), 2);
}

#[test]
fn map_insert_replaces() {
    let mut map = PathMap::new();
    assert_eq!(map.len(), 0);
    assert_eq!(map.get(&path(&["a"])), None);
    map.insert(path(&["a"]), "one".to_string());
    map.insert(path(&["b"]), "two".to_string());
    map.insert(path(&["a"]), "three".to_string());
    assert_eq!(map.len(), 2);
    assert_eq!(map.get(&path(&["a"])), Some(&"three".to_string()));
    assert_eq!(map.get(&path(&["b"])), Some(&"two".to_string()));
    assert!(map.contains_key(&path(&["b"])));
    assert!(!map.contains_key(&path(&["c"])));
}

#[test]
fn map_holds_the_root_path() {
    let mut map = PathMap::new();
    map.insert(FieldPath::new(), "root".to_string());
    assert_eq!(map.get(&FieldPath::new()), Some(&"root".to_string()));
    assert!(!map.contains_key(&path(&[""])));
}

#[test]
fn extend_lets_the_other_map_win() {
    let mut map = PathMap::new();
    map.insert(path(&["a"]), "mine".to_string());
    map.insert(path(&["b"]), "mine".to_string());
    let mut other = PathMap::new();
    other.insert(path(&["b"]), "theirs".to_string());
    other.insert(path(&["c"]), "theirs".to_string());
    map.extend(&other);
    assert_eq!(map.len(), 3);
    assert_eq!(map.get(&path(&["a"])), Some(&"mine".to_string()));
    assert_eq!(map.get(&path(&["b"])), Some(&"theirs".to_string()));
    assert_eq!(map.get(&path(&["c"])), Some(&"theirs".to_string()));
    assert_eq!(other.len(), 2);
}

#[test]
fn adopt_puts_the_field_in_front_and_keeps_own_entries() {
    let mut nested = PathMap::new();
    nested.insert(path(&["body"]), "*dotted".to_string());
    nested.insert(path(&["deep", "er"]), "inline".to_string());
    nested.insert(FieldPath::new(), "multiline".to_string());

    let mut map = PathMap::new();
    map.insert(path(&["llm"]), "dotted".to_string());
    map.insert(path(&["llm", "deep", "er"]), "dotted-nested".to_string());
    map.adopt("llm", &nested);

    assert_eq!(map.len(), 3);
    assert_eq!(map.get(&path(&["llm"])), Some(&"dotted".to_string()));
    assert_eq!(map.get(&path(&["llm", "body"])), Some(&"*dotted".to_string()));
    assert_eq!(map.get(&path(&["llm", "deep", "er"])), Some(&"dotted-nested".to_string()));
    assert_eq!(map.get(&path(&["body"])), None);
}

#[test]
fn adopt_into_an_empty_map() {
    let mut nested = PathMap::new();
    nested.insert(FieldPath::new(), "inline".to_string());
    let mut map = PathMap::new();
    map.adopt("field", &nested);
    assert_eq!(map.len(), 1);
    assert_eq!(map.get(&path(&["field"])), Some(&"inline".to_string()));
}

#[test]
fn directive_tags() {
    assert_eq!(Directive::parse("inline"), Directive::Inline);
    assert_eq!(Directive::parse("dotted"), Directive::Dotted);
    assert_eq!(Directive::parse("dotted-nested"), Directive::DottedNested);
    assert_eq!(Directive::parse("multiline"), Directive::Multiline);
    assert_eq!(Directive::parse("*dotted"), Directive::ChildDotted);
    assert_eq!(Directive::parse("*dotted-nested"), Directive::ChildDottedNested);
}

#[test]
fn directive_unknown_tags_are_default() {
    let tags = ["", "*", "**dotted", "*inline", "*multiline", "Dotted", "dotted ", "dotted_nested"];
    for tag in tags {
        assert_eq!(Directive::parse(tag), Directive::Default);
    }
}

#[test]
fn directive_lookup_falls_back_to_default() {
    let mut formats = PathMap::new();
    formats.insert(path(&["a"]), "inline".to_string());
    assert_eq!(Directive::lookup(&formats, &path(&["a"])), Directive::Inline);
    assert_eq!(Directive::lookup(&formats, &path(&["b"])), Directive::Default);
    assert_eq!(Directive::lookup(&formats, &FieldPath::new()), Directive::Default);
}

#[test]
fn path_duplicate_and_equals() {
    let a = path(&["x", "y"]);
    let b = a.duplicate();
    assert!(a.equals(&b));
    assert_eq!(a, b);
    assert!(!a.equals(&path(&["x"])));
    assert!(!a.equals(&path(&["x", "z"])));
    assert!(FieldPath::new().equals(&FieldPath::new()));
    assert!(a.starts_with(&FieldPath::new()));
    assert!(!path(&["x"]).starts_with(&a));
}

#[test]
fn entries_keep_the_order_of_first_insertion() {
    let mut map = PathMap::new();
    map.insert(path(&["b"]), "1".to_string());
    map.insert(path(&["a"]), "2".to_string());
    map.insert(path(&["b"]), "3".to_string());
    let mut other = PathMap::new();
    other.insert(path(&["c"]), "4".to_string());
    other.insert(path(&["a"]), "5".to_string());
    map.extend(&other);
    map.adopt("b", &other);

    let mut seen = Vec::new();
    let mut index = 0;
    while let Some((at, value)) = map.entry(index) {
        seen.push((at.as_dotted_key(), value.clone()));
        index += 1;
    }
    assert_eq!(
        seen,
        vec![
            ("b".to_string(), "3".to_string()),
            ("a".to_string(), "5".to_string()),
            ("c".to_string(), "4".to_string()),
            ("b.c".to_string(), "4".to_string()),
            ("b.a".to_string(), "5".to_string()),
        ]
    );
    assert!(map.entry(5).is_none());
}
