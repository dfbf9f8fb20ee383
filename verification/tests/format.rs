use toml_scaffold::{
    append_comment, append_section_separator, append_table, categorize_table_keys, flatten_dotted,
    format_value, format_with_comments, has_comments, is_float_literal, is_scalar,
    is_well_formed, Datum, FieldPath, PathMap, PathSet,
};

fn text(value: &str) -> Datum {
    Datum::String(value.to_string())
}

fn table(entries: Vec<(&str, Datum)>) -> Datum {
    Datum::Table(entries.into_iter().map(|(k, v)| (k.to_string(), v)).collect())
}

fn entries(entries: Vec<(&str, Datum)>) -> Vec<(String, Datum)> {
    entries.into_iter().map(|(k, v)| (k.to_string(), v)).collect()
}

fn path(segments: &[&str]) -> FieldPath {
    FieldPath::from_vec(segments.iter().map(|s| s.to_string()).collect())
}

fn integers(values: &[i64]) -> Datum {
    Datum::Array(values.iter().map(|i| Datum::Integer(*i)).collect())
}

fn render(value: &Datum, comments: &PathMap, formats: &PathMap) -> String {
    format_with_comments(
        value,
        comments,
        &PathSet::new(),
        &PathSet::new(),
        formats,
        &FieldPath::new(),
    )
}

#[test]
fn test_format_value_string() {
    let comments = PathMap::new();
    let formats = PathMap::new();
    let path = FieldPath::new();
    let val = Datum::String("test".to_string());
    assert_eq!(format_value(&val, &comments, &formats, &path), "\"test\"");
}

#[test]
fn test_format_value_string_with_escapes() {
    let comments = PathMap::new();
    let formats = PathMap::new();
    let path = FieldPath::new();
    let val = Datum::String("test\"quote".to_string());
    assert_eq!(
        format_value(&val, &comments, &formats, &path),
        "\"test\\\"quote\""
    );
}

#[test]
fn test_format_value_multiline_string() {
    let comments = PathMap::new();
    let formats = PathMap::new();
    let path = FieldPath::new();
    let val = Datum::String("line1\nline2".to_string());
    assert_eq!(
        format_value(&val, &comments, &formats, &path),
        "\"\"\"\nline1\nline2\"\"\""
    );
}

#[test]
fn test_format_value_integer() {
    let comments = PathMap::new();
    let formats = PathMap::new();
    let path = FieldPath::new();
    let val = Datum::Integer(42);
    assert_eq!(format_value(&val, &comments, &formats, &path), "42");
}

#[test]
fn test_format_value_float() {
    let comments = PathMap::new();
    let formats = PathMap::new();
    let path = FieldPath::new();
    let val = Datum::Float(toml_writer::ToTomlValue::to_toml_value(&3.14));
    assert_eq!(format_value(&val, &comments, &formats, &path), "3.14");
}

#[test]
fn test_format_value_boolean() {
    let comments = PathMap::new();
    let formats = PathMap::new();
    let path = FieldPath::new();
    let val = Datum::Boolean(true);
    assert_eq!(format_value(&val, &comments, &formats, &path), "true");
}

#[test]
fn test_format_value_inline_array() {
    let comments = PathMap::new();
    let formats = PathMap::new();
    let path = FieldPath::new();
    let val = integers(&[1, 2, 3]);
    assert_eq!(format_value(&val, &comments, &formats, &path), "[1, 2, 3]");
}

#[test]
fn test_format_value_multiline_array() {
    let comments = PathMap::new();
    let formats = PathMap::new();
    let path = FieldPath::new();
    let val = integers(&[1, 2, 3, 4, 5]);
    assert_eq!(
        format_value(&val, &comments, &formats, &path),
        "[1, 2, 3, 4, 5]"
    );
}

#[test]
fn test_is_scalar() {
    assert!(is_scalar(&Datum::Integer(1)));
    assert!(is_scalar(&Datum::String("test".to_string())));
    assert!(is_scalar(&Datum::Boolean(true)));
    assert!(!is_scalar(&Datum::Array(vec![])));
    assert!(!is_scalar(&Datum::Table(vec![])));
}

#[test]
fn test_append_comment() {
    let mut result = String::new();
    let mut comments = PathMap::new();
    let path = FieldPath::from_vec(vec!["field".to_string()]);
    comments.insert(path.clone(), "Test comment".to_string());

    append_comment(&mut result, &comments, &path);
    assert_eq!(result, "# Test comment\n");
}

#[test]
fn test_append_comment_multiline() {
    let mut result = String::new();
    let mut comments = PathMap::new();
    let path = FieldPath::from_vec(vec!["field".to_string()]);
    comments.insert(path.clone(), "Line 1\nLine 2".to_string());

    append_comment(&mut result, &comments, &path);
    assert_eq!(result, "# Line 1\n# Line 2\n");
}

#[test]
fn test_append_section_separator() {
    let mut result = String::new();
    append_section_separator(&mut result);
    assert_eq!(result, "");

    result.push_str("content");
    append_section_separator(&mut result);
    assert_eq!(result, "content\n");
}

#[test]
fn test_has_comments() {
    let table = entries(vec![("key", Datum::Integer(1))]);

    let comments = PathMap::new();
    assert!(!has_comments(&table, &comments, &FieldPath::new()));

    let mut comments = PathMap::new();
    comments.insert(
        FieldPath::from_vec(vec!["key".to_string()]),
        "comment".to_string(),
    );
    assert!(has_comments(&table, &comments, &FieldPath::new()));
}

#[test]
fn has_comments_looks_below_the_given_path() {
    let table = entries(vec![("key", Datum::Integer(1))]);
    let mut comments = PathMap::new();
    comments.insert(path(&["outer", "key"]), "comment".to_string());
    assert!(!has_comments(&table, &comments, &FieldPath::new()));
    assert!(has_comments(&table, &comments, &path(&["outer"])));
}

#[test]
fn append_comment_without_entry_changes_nothing() {
    let mut result = String::from("kept");
    let comments = PathMap::new();
    append_comment(&mut result, &comments, &path(&["missing"]));
    assert_eq!(result, "kept");
}

#[test]
fn append_comment_keeps_one_empty_line_between_paragraphs() {
    let mut result = String::new();
    let mut comments = PathMap::new();
    let at = path(&["field"]);
    comments.insert(
        at.clone(),
        "This is a field\n\nwith multiple lines\n\nof documentation".to_string(),
    );
    append_comment(&mut result, &comments, &at);
    assert_eq!(
        result,
        "# This is a field\n#\n# with multiple lines\n#\n# of documentation\n"
    );
}

#[test]
fn append_comment_writes_a_run_of_empty_lines_once() {
    let mut result = String::new();
    let mut comments = PathMap::new();
    let at = path(&["field"]);
    comments.insert(at.clone(), "a\n\n\nb".to_string());
    append_comment(&mut result, &comments, &at);
    assert_eq!(result, "# a\n#\n# b\n");

    let mut result = String::new();
    comments.insert(at.clone(), "a\n\n\n\n\nb\n\r\n\nc".to_string());
    append_comment(&mut result, &comments, &at);
    assert_eq!(result, "# a\n#\n# b\n#\n# c\n");
}

#[test]
fn append_comment_with_empty_lines_at_its_ends() {
    let mut result = String::new();
    let mut comments = PathMap::new();
    let at = path(&["field"]);
    comments.insert(at.clone(), "\n\na\n\n".to_string());
    append_comment(&mut result, &comments, &at);
    assert_eq!(result, "#\n# a\n#\n");

    let mut result = String::new();
    comments.insert(at.clone(), "\n\n\n".to_string());
    append_comment(&mut result, &comments, &at);
    assert_eq!(result, "#\n");

    let mut result = String::new();
    comments.insert(at.clone(), "".to_string());
    append_comment(&mut result, &comments, &at);
    assert_eq!(result, "");
}

#[test]
fn append_comment_drops_carriage_return_before_line_feed() {
    let mut result = String::new();
    let mut comments = PathMap::new();
    let at = path(&["field"]);
    comments.insert(at.clone(), "one\r\ntwo\r".to_string());
    append_comment(&mut result, &comments, &at);
    assert_eq!(result, "# one\n# two\r\n");
}

#[test]
fn append_comment_ignores_final_line_feed() {
    let mut result = String::new();
    let mut comments = PathMap::new();
    let at = path(&["field"]);
    comments.insert(at.clone(), "only\n".to_string());
    append_comment(&mut result, &comments, &at);
    assert_eq!(result, "# only\n");
}

#[test]
fn append_comment_follows_the_lines_of_the_text() {
    let samples = [
        "",
        "\n",
        "\n\n",
        "\n\n\n\n\n",
        "a",
        "a\n\nb\n\n\nc\n",
        "\r\n",
        "x\r\r\ny",
        "tail\r",
        " lead and trail ",
    ];
    for sample in samples {
        let mut expected = String::new();
        let mut blank = false;
        for line in sample.lines() {
            if line.is_empty() {
                if !blank {
                    expected.push_str("#\n");
                }
                blank = true;
            } else {
                expected.push_str(&format!("# {}\n", line));
                blank = false;
            }
        }
        let mut result = String::new();
        let mut comments = PathMap::new();
        let at = path(&["field"]);
        comments.insert(at.clone(), sample.to_string());
        append_comment(&mut result, &comments, &at);
        assert_eq!(result, expected);
    }
}

#[test]
fn separator_is_not_doubled() {
    let mut result = String::from("content\n\n");
    append_section_separator(&mut result);
    assert_eq!(result, "content\n\n");

    let mut result = String::from("content\n");
    append_section_separator(&mut result);
    assert_eq!(result, "content\n\n");
}

#[test]
fn format_value_negative_and_extreme_integers() {
    let comments = PathMap::new();
    let formats = PathMap::new();
    let root = FieldPath::new();
    assert_eq!(format_value(&Datum::Integer(0), &comments, &formats, &root), "0");
    assert_eq!(format_value(&Datum::Integer(-7), &comments, &formats, &root), "-7");
    assert_eq!(
        format_value(&Datum::Integer(i64::MAX), &comments, &formats, &root),
        "9223372036854775807"
    );
    assert_eq!(
        format_value(&Datum::Integer(i64::MIN), &comments, &formats, &root),
        "-9223372036854775808"
    );
}

#[test]
fn format_value_false() {
    let comments = PathMap::new();
    let formats = PathMap::new();
    assert_eq!(
        format_value(&Datum::Boolean(false), &comments, &formats, &FieldPath::new()),
        "false"
    );
}

#[test]
fn format_value_float_literal_is_copied() {
    let comments = PathMap::new();
    let formats = PathMap::new();
    let val = Datum::Float(toml_writer::ToTomlValue::to_toml_value(&2.0));
    assert_eq!(format_value(&val, &comments, &formats, &FieldPath::new()), "2.0");
}

#[test]
fn format_value_array_with_multiline_directive() {
    let comments = PathMap::new();
    let mut formats = PathMap::new();
    let at = path(&["ports"]);
    formats.insert(at.clone(), "multiline".to_string());
    let val = integers(&[1, 2, 3, 4, 5]);
    assert_eq!(
        format_value(&val, &comments, &formats, &at),
        "[\n  1,\n  2,\n  3,\n  4,\n  5,\n]"
    );
    assert_eq!(
        format_value(&val, &comments, &formats, &path(&["other"])),
        "[1, 2, 3, 4, 5]"
    );
}

#[test]
fn format_value_empty_array_with_multiline_directive() {
    let comments = PathMap::new();
    let mut formats = PathMap::new();
    let at = path(&["ports"]);
    formats.insert(at.clone(), "multiline".to_string());
    assert_eq!(format_value(&Datum::Array(vec![]), &comments, &formats, &at), "[]");
    let value = table(vec![("ports", Datum::Array(vec![]))]);
    assert_eq!(render(&value, &comments, &formats), "ports = []\n");
    assert_eq!(
        format_value(&integers(&[7]), &comments, &formats, &at),
        "[\n  7,\n]"
    );
}

#[test]
fn format_value_empty_array() {
    let comments = PathMap::new();
    let formats = PathMap::new();
    assert_eq!(
        format_value(&Datum::Array(vec![]), &comments, &formats, &FieldPath::new()),
        "[]"
    );
}

#[test]
fn format_value_nested_arrays() {
    let comments = PathMap::new();
    let formats = PathMap::new();
    let val = Datum::Array(vec![integers(&[1, 2]), integers(&[3])]);
    assert_eq!(
        format_value(&val, &comments, &formats, &FieldPath::new()),
        "[[1, 2], [3]]"
    );
}

#[test]
fn format_value_small_table_is_inline_map() {
    let comments = PathMap::new();
    let formats = PathMap::new();
    let val = table(vec![("a", Datum::Integer(1)), ("b", text("x"))]);
    assert_eq!(
        format_value(&val, &comments, &formats, &FieldPath::new()),
        "{ a = 1, b = \"x\" }"
    );
}

#[test]
fn format_value_empty_table_is_inline_map() {
    let comments = PathMap::new();
    let formats = PathMap::new();
    assert_eq!(
        format_value(&Datum::Table(vec![]), &comments, &formats, &FieldPath::new()),
        "{  }"
    );
}

#[test]
fn format_value_table_of_five_falls_back_to_block() {
    let comments = PathMap::new();
    let formats = PathMap::new();
    let val = table(vec![
        ("a", Datum::Integer(1)),
        ("b", Datum::Integer(2)),
        ("c", Datum::Integer(3)),
        ("d", Datum::Integer(4)),
        ("e", Datum::Integer(5)),
    ]);
    assert_eq!(
        format_value(&val, &comments, &formats, &FieldPath::new()),
        "a = 1\nb = 2\nc = 3\nd = 4\ne = 5"
    );
}

#[test]
fn format_value_table_with_commented_child_falls_back_to_block() {
    let mut comments = PathMap::new();
    comments.insert(path(&["t", "a"]), "documented".to_string());
    let formats = PathMap::new();
    let val = table(vec![("a", Datum::Integer(1))]);
    assert_eq!(format_value(&val, &comments, &formats, &path(&["t"])), "a = 1");
    assert_eq!(
        format_value(&val, &comments, &formats, &path(&["u"])),
        "{ a = 1 }"
    );
}

#[test]
fn format_value_table_with_nested_value_falls_back_to_block() {
    let comments = PathMap::new();
    let formats = PathMap::new();
    let val = table(vec![("a", integers(&[1, 2])), ("f", Datum::Float("1.5".to_string()))]);
    assert_eq!(
        format_value(&val, &comments, &formats, &FieldPath::new()),
        "a = [1, 2]\nf = 1.5"
    );
}

#[test]
fn format_value_block_is_empty_where_a_float_literal_is_none() {
    let comments = PathMap::new();
    let formats = PathMap::new();
    let val = table(vec![
        ("a", integers(&[1])),
        ("f", Datum::Float("not a number".to_string())),
    ]);
    assert_eq!(format_value(&val, &comments, &formats, &FieldPath::new()), "");
}

#[test]
fn categorize_keeps_table_order_in_each_bucket() {
    let table = entries(vec![
        ("name", text("x")),
        ("db", table_of_one()),
        ("list", integers(&[1])),
        ("items", Datum::Array(vec![table_of_one()])),
        ("empty", Datum::Array(vec![])),
        ("server", table_of_one()),
        ("mixed", Datum::Array(vec![Datum::Integer(1), table_of_one()])),
    ]);
    let (inline, nested, arrays) = categorize_table_keys(&table);
    assert_eq!(inline, vec![0, 2, 4, 6]);
    assert_eq!(nested, vec![1, 5]);
    assert_eq!(arrays, vec![3]);
}

fn table_of_one() -> Datum {
    table(vec![("k", Datum::Integer(1))])
}

#[test]
fn flatten_dotted_descends_into_every_table() {
    let mut comments = PathMap::new();
    comments.insert(path(&["body", "key2", "key3"]), "deep".to_string());
    let formats = PathMap::new();
    let nested = entries(vec![
        ("key1", Datum::Integer(123)),
        (
            "key2",
            table(vec![
                ("key3", Datum::Integer(456)),
                ("key4", table(vec![("key5", Datum::Integer(789))])),
            ]),
        ),
    ]);
    let mut result = String::from("start\n");
    flatten_dotted(&mut result, "body", &nested, &comments, &formats, &path(&["body"]));
    assert_eq!(
        result,
        "start\nbody.key1 = 123\n# deep\nbody.key2.key3 = 456\nbody.key2.key4.key5 = 789\n"
    );
}

#[test]
fn root_that_is_no_table_renders_nothing() {
    let comments = PathMap::new();
    let formats = PathMap::new();
    assert_eq!(render(&Datum::Integer(1), &comments, &formats), "");
    assert_eq!(render(&integers(&[1]), &comments, &formats), "");
}

#[test]
fn keys_are_encoded_where_they_stand_alone() {
    let comments = PathMap::new();
    let formats = PathMap::new();
    let value = table(vec![("plain_key-1", Datum::Integer(1)), ("needs quote", Datum::Integer(2))]);
    assert_eq!(
        render(&value, &comments, &formats),
        "plain_key-1 = 1\n\"needs quote\" = 2\n"
    );
}

fn set(paths: &[&[&str]]) -> PathSet {
    let mut set = PathSet::new();
    for segments in paths {
        set.insert(path(segments));
    }
    set
}

fn map(entries: &[(&[&str], &str)]) -> PathMap {
    let mut map = PathMap::new();
    for (at, value) in entries {
        map.insert(path(at), value.to_string());
    }
    map
}

#[test]
fn placeholders_follow_the_order_of_the_known_paths() {
    let value = table(vec![("present", Datum::Integer(1))]);
    let comments = map(&[(&["b"], "second"), (&["present"], "here")]);
    let all = set(&[&["z"], &["present"], &["b"], &["deep", "er"], &["required"]]);
    let optional = set(&[&["b"], &["z"], &["present"], &["deep", "er"]]);
    let text = format_with_comments(
        &value,
        &comments,
        &all,
        &optional,
        &PathMap::new(),
        &FieldPath::new(),
    );
    assert_eq!(text, "# here\npresent = 1\n# z = ...\n# second\n# b = ...\n");
}

#[test]
fn placeholders_stand_in_the_table_of_their_parent() {
    let value = table(vec![("worker", table(vec![("max_files", Datum::Integer(5))]))]);
    let comments = map(&[(&["worker", "max_parallel"], "Optional parallel workers")]);
    let all = set(&[&["worker"], &["worker", "max_files"], &["worker", "max_parallel"]]);
    let optional = set(&[&["worker", "max_parallel"]]);
    let text = format_with_comments(
        &value,
        &comments,
        &all,
        &optional,
        &PathMap::new(),
        &FieldPath::new(),
    );
    assert_eq!(
        text,
        "[worker]\nmax_files = 5\n# Optional parallel workers\n# max_parallel = ...\n"
    );
}

#[test]
fn placeholder_key_is_encoded() {
    let value = table(vec![]);
    let all = set(&[&["needs quote"]]);
    let optional = set(&[&["needs quote"]]);
    let text = format_with_comments(
        &value,
        &PathMap::new(),
        &all,
        &optional,
        &PathMap::new(),
        &FieldPath::new(),
    );
    assert_eq!(text, "# \"needs quote\" = ...\n");
}

#[test]
fn optional_path_that_is_not_known_gives_no_placeholder() {
    let value = table(vec![]);
    let all = set(&[&["known"]]);
    let optional = set(&[&["unknown"]]);
    let text = format_with_comments(
        &value,
        &PathMap::new(),
        &all,
        &optional,
        &PathMap::new(),
        &FieldPath::new(),
    );
    assert_eq!(text, "");
}

#[test]
fn rendering_below_the_root_skips_the_root_comment() {
    let value = table(vec![("a", Datum::Integer(1))]);
    let comments = map(&[(&[], "root"), (&["sub", "a"], "leaf")]);
    let text = format_with_comments(
        &value,
        &comments,
        &PathSet::new(),
        &PathSet::new(),
        &PathMap::new(),
        &path(&["sub"]),
    );
    assert_eq!(text, "# leaf\na = 1\n");
    let at_root = render(&value, &comments, &PathMap::new());
    assert_eq!(at_root, "# root\n\na = 1\n");
}

#[test]
fn dotted_directive_on_an_empty_table_leaves_its_comment() {
    let value = table(vec![("body", table(vec![]))]);
    let comments = map(&[(&["body"], "Body")]);
    let formats = map(&[(&["body"], "dotted")]);
    assert_eq!(render(&value, &comments, &formats), "# Body\n");
}

#[test]
fn inline_directive_renders_children_as_values() {
    let value = table(vec![(
        "db",
        table(vec![
            ("ports", integers(&[1, 2])),
            ("auth", table(vec![("user", text("u"))])),
            ("on", Datum::Boolean(false)),
        ]),
    )]);
    let comments = map(&[(&["db"], "Database"), (&["db", "on"], "not shown")]);
    let formats = map(&[(&["db"], "inline"), (&["db", "ports"], "multiline")]);
    assert_eq!(
        render(&value, &comments, &formats),
        "# Database\ndb = { ports = [\n  1,\n  2,\n], auth = { user = \"u\" }, on = false }\n"
    );
}

#[test]
fn child_dotted_keeps_plain_children_plain() {
    let value = table(vec![(
        "body",
        table(vec![
            ("flag", Datum::Boolean(true)),
            (
                "sub",
                table(vec![("x", Datum::Integer(1)), ("y", table(vec![("z", Datum::Integer(2))]))]),
            ),
        ]),
    )]);
    let comments = map(&[
        (&["body", "flag"], "Flag"),
        (&["body", "sub"], "never written"),
        (&["body", "sub", "x"], "X"),
    ]);
    let formats = map(&[(&["body"], "*dotted")]);
    assert_eq!(
        render(&value, &comments, &formats),
        "[body]\n# Flag\nflag = true\n# X\nsub.x = 1\nsub.y = { z = 2 }\n"
    );
}

#[test]
fn array_of_tables_with_a_stray_element_writes_its_header_only() {
    let value = table(vec![(
        "items",
        Datum::Array(vec![table(vec![("a", Datum::Integer(1))]), Datum::Integer(7)]),
    )]);
    assert_eq!(
        render(&value, &PathMap::new(), &PathMap::new()),
        "[[items]]\na = 1\n\n[[items]]\n"
    );
}

#[test]
fn array_that_starts_with_a_scalar_is_an_inline_key() {
    let value = table(vec![(
        "mixed",
        Datum::Array(vec![Datum::Integer(7), table(vec![("a", Datum::Integer(1))])]),
    )]);
    assert_eq!(
        render(&value, &PathMap::new(), &PathMap::new()),
        "mixed = [7, { a = 1 }]\n"
    );
}

#[test]
fn buckets_are_written_in_their_fixed_order() {
    let value = table(vec![
        ("items", Datum::Array(vec![table(vec![("a", Datum::Integer(1))])])),
        ("section", table(vec![("b", Datum::Integer(2))])),
        ("scalar", Datum::Integer(3)),
    ]);
    let all = set(&[&["missing"]]);
    let optional = set(&[&["missing"]]);
    let text = format_with_comments(
        &value,
        &PathMap::new(),
        &all,
        &optional,
        &PathMap::new(),
        &FieldPath::new(),
    );
    assert_eq!(
        text,
        "scalar = 3\n# missing = ...\n\n[section]\nb = 2\n\n[[items]]\na = 1\n"
    );
}

#[test]
fn comment_stands_directly_above_its_line() {
    let value = table(vec![
        ("key", Datum::Integer(1)),
        ("section", table(vec![])),
        ("items", Datum::Array(vec![table(vec![])])),
    ]);
    let comments = map(&[
        (&["key"], "about the key\n\nsecond paragraph"),
        (&["section"], "about the section"),
        (&["items"], "about the items"),
        (&["gone"], "about the absent one"),
    ]);
    let all = set(&[&["gone"]]);
    let optional = set(&[&["gone"]]);
    let text = format_with_comments(
        &value,
        &comments,
        &all,
        &optional,
        &PathMap::new(),
        &FieldPath::new(),
    );
    assert_eq!(
        text,
        "# about the key\n#\n# second paragraph\nkey = 1\n\
         # about the absent one\n# gone = ...\n\n\
         # about the section\n[section]\n\n\
         # about the items\n[[items]]\n"
    );
}

#[test]
fn keys_are_encoded_in_inline_maps() {
    let comments = PathMap::new();
    let formats = PathMap::new();
    let val = table(vec![("a.b", Datum::Integer(1)), ("c d", text("x"))]);
    assert_eq!(
        format_value(&val, &comments, &formats, &FieldPath::new()),
        "{ \"a.b\" = 1, \"c d\" = \"x\" }"
    );
}

#[test]
fn keys_are_encoded_in_headers() {
    let value = table(vec![
        ("a.b", table(vec![("c d", table(vec![("e", Datum::Integer(1))]))])),
        ("x y", Datum::Array(vec![table(vec![("z", Datum::Integer(2))])])),
    ]);
    assert_eq!(
        render(&value, &PathMap::new(), &PathMap::new()),
        "[\"a.b\"]\n\n[\"a.b\".\"c d\"]\ne = 1\n\n[[\"x y\"]]\nz = 2\n"
    );
}

#[test]
fn keys_are_encoded_under_every_directive() {
    let child = || {
        table(vec![
            ("p.q", Datum::Integer(1)),
            ("sub tab", table(vec![("r.s", Datum::Integer(2))])),
        ])
    };
    let value = table(vec![("k.1", child())]);

    let formats = map(&[(&["k.1"], "inline")]);
    assert_eq!(
        render(&value, &PathMap::new(), &formats),
        "\"k.1\" = { \"p.q\" = 1, \"sub tab\" = { \"r.s\" = 2 } }\n"
    );
    let formats = map(&[(&["k.1"], "dotted")]);
    assert_eq!(
        render(&value, &PathMap::new(), &formats),
        "\"k.1\".\"p.q\" = 1\n\"k.1\".\"sub tab\" = { \"r.s\" = 2 }\n"
    );
    let formats = map(&[(&["k.1"], "dotted-nested")]);
    assert_eq!(
        render(&value, &PathMap::new(), &formats),
        "\"k.1\".\"p.q\" = 1\n\"k.1\".\"sub tab\".\"r.s\" = 2\n"
    );
    let formats = map(&[(&["k.1"], "*dotted")]);
    assert_eq!(
        render(&value, &PathMap::new(), &formats),
        "[\"k.1\"]\n\"p.q\" = 1\n\"sub tab\".\"r.s\" = 2\n"
    );
    let formats = map(&[(&["k.1"], "*dotted-nested")]);
    assert_eq!(
        render(&value, &PathMap::new(), &formats),
        "[\"k.1\"]\n\"p.q\" = 1\n\"sub tab\".\"r.s\" = 2\n"
    );
}

#[test]
fn strings_on_one_line_are_escaped_between_double_quotes() {
    let comments = PathMap::new();
    let formats = PathMap::new();
    let root = FieldPath::new();
    let cases = [
        ("", "\"\""),
        ("it's", "\"it's\""),
        ("a\\b", "\"a\\\\b\""),
        ("tab\there", "\"tab\\there\""),
        ("bell\u{7}", "\"bell\\u0007\""),
        ("\r", "\"\\r\""),
    ];
    for (value, expected) in cases {
        assert_eq!(format_value(&text(value), &comments, &formats, &root), expected);
    }
}

#[test]
fn strings_with_a_line_feed_take_the_block_form() {
    let comments = PathMap::new();
    let formats = PathMap::new();
    let root = FieldPath::new();
    let cases = [
        ("\n", "\"\"\"\n\n\"\"\""),
        ("a\nb\\c", "'''\na\nb\\c'''"),
        ("tab\there\n", "\"\"\"\ntab\\there\n\"\"\""),
        ("say \"hi\"\nbye", "\"\"\"\nsay \"hi\"\nbye\"\"\""),
    ];
    for (value, expected) in cases {
        assert_eq!(format_value(&text(value), &comments, &formats, &root), expected);
    }
}

#[test]
fn multiline_directive_is_for_arrays_of_scalars() {
    let comments = PathMap::new();
    let at = path(&["a"]);
    let formats = map(&[(&["a"], "multiline")]);
    let nested = Datum::Array(vec![integers(&[1]), integers(&[2])]);
    assert_eq!(
        format_value(&nested, &comments, &formats, &at),
        "[[\n  1,\n], [\n  2,\n]]"
    );
    let mixed = Datum::Array(vec![Datum::Integer(1), table(vec![("k", Datum::Integer(2))])]);
    assert_eq!(format_value(&mixed, &comments, &formats, &at), "[1, { k = 2 }]");
    let scalars = Datum::Array(vec![text("x"), Datum::Boolean(true)]);
    assert_eq!(
        format_value(&scalars, &comments, &formats, &at),
        "[\n  \"x\",\n  true,\n]"
    );
}

#[test]
fn float_literals() {
    for literal in [
        "0.0", "-0.0", "+1.5", "3.14", "10.25", "1e5", "1E5", "1e+5", "2.5e-3", "0e0", "inf",
        "-inf", "+inf", "nan", "-nan",
    ] {
        assert!(is_float_literal(literal), "{}", literal);
    }
    for literal in [
        "", "1", "-7", "01.5", "1.", ".5", "1.5.2", "1e", "1e+", "e5", "+", "in", "infinity",
        "NaN", "1_000.0", " 1.5", "1.5 ", "1.5\n", "0x1p3", "--1.0", "1,5",
    ] {
        assert!(!is_float_literal(literal), "{:?}", literal);
    }
}

#[test]
fn float_literals_of_the_writer_are_literals() {
    let values =
        [0.0, -0.0, 1.0, -2.5, 3.14, 1e300, 1e-7, 123456789.0, f64::MAX, f64::MIN_POSITIVE];
    for value in values {
        let literal = toml_writer::ToTomlValue::to_toml_value(&value);
        assert!(is_float_literal(&literal), "{}", literal);
    }
    for value in [f64::INFINITY, f64::NEG_INFINITY, f64::NAN, -f64::NAN] {
        let literal = toml_writer::ToTomlValue::to_toml_value(&value);
        assert!(is_float_literal(&literal), "{}", literal);
    }
}

#[test]
fn append_table_goes_on_behind_what_is_written() {
    let config = table(vec![
        ("name", text("demo")),
        ("server", table(vec![("port", Datum::Integer(8080))])),
    ]);
    let mut written = String::from("# made by hand\n");
    append_table(
        &mut written,
        &config,
        &PathMap::new(),
        &PathSet::new(),
        &PathSet::new(),
        &PathMap::new(),
        &FieldPath::new(),
    );
    assert_eq!(written, "# made by hand\nname = \"demo\"\n\n[server]\nport = 8080\n");
}

#[test]
fn append_table_of_a_scalar_leaves_the_text() {
    let mut written = String::from("kept");
    append_table(
        &mut written,
        &Datum::Integer(1),
        &PathMap::new(),
        &PathSet::new(),
        &PathSet::new(),
        &PathMap::new(),
        &FieldPath::new(),
    );
    assert_eq!(written, "kept");
}

#[test]
fn tables_that_hold_each_key_once() {
    assert!(is_well_formed(&Datum::Integer(1)));
    assert!(is_well_formed(&table(vec![])));
    assert!(is_well_formed(&table(vec![("a", Datum::Integer(1)), ("b", Datum::Integer(2))])));
    assert!(is_well_formed(&table(vec![
        ("a", table(vec![("a", Datum::Integer(1))])),
        ("b", Datum::Array(vec![table(vec![("a", Datum::Integer(1))])])),
    ])));
}

#[test]
fn tables_that_hold_a_key_twice() {
    assert!(!is_well_formed(&table(vec![("a", Datum::Integer(1)), ("a", Datum::Integer(2))])));
    assert!(!is_well_formed(&table(vec![
        ("a", Datum::Integer(1)),
        ("b", Datum::Integer(2)),
        ("a", Datum::Integer(1)),
    ])));
    assert!(!is_well_formed(&table(vec![(
        "outer",
        table(vec![("a", Datum::Integer(1)), ("a", Datum::Integer(2))]),
    )])));
    assert!(!is_well_formed(&Datum::Array(vec![
        table(vec![("a", Datum::Integer(1))]),
        table(vec![("b", Datum::Integer(1)), ("b", Datum::Integer(2))]),
    ])));
}

#[test]
fn floats_that_are_literals_or_not() {
    assert!(is_well_formed(&Datum::Float("3.14".to_string())));
    assert!(is_well_formed(&table(vec![("x", Datum::Float("-inf".to_string()))])));
    assert!(!is_well_formed(&Datum::Float("1".to_string())));
    assert!(!is_well_formed(&Datum::Float("\n\n\n[x]".to_string())));
    assert!(!is_well_formed(&table(vec![(
        "x",
        Datum::Array(vec![Datum::Float("1.5".to_string()), Datum::Float(String::new())]),
    )])));
}
