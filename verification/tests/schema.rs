use toml_scaffold::{
    extract_all_comments, extract_nested_schema_info, extract_schema_info, FieldPath, SchemaInfo,
    SchemaNode,
};

fn path(segments: &[&str]) -> FieldPath {
    FieldPath::from_vec(segments.iter().map(|s| s.to_string()).collect())
}

fn word(value: &str) -> SchemaNode {
    SchemaNode::Text(value.to_string())
}

fn object(members: Vec<(&str, SchemaNode)>) -> SchemaNode {
    SchemaNode::Object(members.into_iter().map(|(k, v)| (k.to_string(), v)).collect())
}

fn list(nodes: Vec<SchemaNode>) -> SchemaNode {
    SchemaNode::List(nodes)
}

fn known(info: &SchemaInfo) -> Vec<String> {
    (0..info.all_fields.len())
        .map(|i| info.all_fields.get(i).unwrap().as_dotted_key())
        .collect()
}

fn optional(info: &SchemaInfo) -> Vec<String> {
    (0..info.optional_fields.len())
        .map(|i| info.optional_fields.get(i).unwrap().as_dotted_key())
        .collect()
}

fn comment(info: &SchemaInfo, at: &[&str]) -> Option<String> {
    info.comments.get(&path(at)).cloned()
}

#[test]
fn properties_are_recorded_in_order() {
    let schema = object(vec![
        (
            "properties",
            object(vec![
                ("host", object(vec![("description", word("Server host address"))])),
                ("port", object(vec![("description", word("Server port"))])),
                ("debug", object(vec![("type", word("boolean"))])),
            ]),
        ),
        ("required", list(vec![word("host"), SchemaNode::Other, word("debug")])),
    ]);
    let info = extract_schema_info(&schema, &FieldPath::new());
    assert_eq!(known(&info), vec!["host", "port", "debug"]);
    assert_eq!(optional(&info), vec!["port"]);
    assert_eq!(comment(&info, &["host"]), Some("Server host address".to_string()));
    assert_eq!(comment(&info, &["port"]), Some("Server port".to_string()));
    assert_eq!(comment(&info, &["debug"]), None);
    assert_eq!(info.comments.len(), 2);
    assert_eq!(info.formats.len(), 0);
}

#[test]
fn extraction_is_repeatable() {
    let schema = object(vec![
        (
            "properties",
            object(vec![
                ("a", object(vec![("$ref", word("#/$defs/A")), ("description", word("first"))])),
                ("b", object(vec![("items", object(vec![("$ref", word("#/$defs/A"))]))])),
            ]),
        ),
        (
            "$defs",
            object(vec![(
                "A",
                object(vec![(
                    "properties",
                    object(vec![("x", object(vec![("description", word("inner"))]))]),
                )]),
            )]),
        ),
    ]);
    let first = extract_schema_info(&schema, &FieldPath::new());
    let second = extract_schema_info(&schema, &FieldPath::new());
    assert_eq!(known(&first), known(&second));
    assert_eq!(optional(&first), optional(&second));
    assert_eq!(known(&first), vec!["a", "a.x", "b", "b.x"]);
    for at in [vec!["a"], vec!["a", "x"], vec!["b"], vec!["b", "x"]] {
        assert_eq!(comment(&first, &at), comment(&second, &at));
    }
    assert_eq!(comment(&first, &["b", "x"]), Some("inner".to_string()));
}

#[test]
fn starting_path_is_put_in_front() {
    let schema = object(vec![(
        "properties",
        object(vec![("x", object(vec![("description", word("deep"))]))]),
    )]);
    let info = extract_schema_info(&schema, &path(&["outer", "inner"]));
    assert_eq!(known(&info), vec!["outer.inner.x"]);
    assert_eq!(comment(&info, &["outer", "inner", "x"]), Some("deep".to_string()));
}

#[test]
fn reference_adds_no_segment() {
    let schema = object(vec![
        ("properties", object(vec![("db", object(vec![("$ref", word("#/$defs/Db"))]))])),
        ("required", list(vec![word("db")])),
        (
            "$defs",
            object(vec![(
                "Db",
                object(vec![
                    ("properties", object(vec![("url", SchemaNode::Other)])),
                    ("required", list(vec![word("url")])),
                ]),
            )]),
        ),
    ]);
    let info = extract_schema_info(&schema, &FieldPath::new());
    assert_eq!(known(&info), vec!["db", "db.url"]);
    assert!(optional(&info).is_empty());
}

#[test]
fn reference_without_the_usual_lead_is_looked_up_as_it_is() {
    let schema = object(vec![
        ("properties", object(vec![("db", object(vec![("$ref", word("Db"))]))])),
        (
            "$defs",
            object(vec![(
                "Db",
                object(vec![("properties", object(vec![("url", SchemaNode::Other)]))]),
            )]),
        ),
    ]);
    let info = extract_schema_info(&schema, &FieldPath::new());
    assert_eq!(known(&info), vec!["db", "db.url"]);
}

#[test]
fn unknown_reference_adds_nothing() {
    let schema = object(vec![(
        "properties",
        object(vec![("db", object(vec![("$ref", word("#/$defs/Missing"))]))]),
    )]);
    let info = extract_schema_info(&schema, &FieldPath::new());
    assert_eq!(known(&info), vec!["db"]);
}

#[test]
fn every_branch_of_a_combinator_contributes() {
    let branch = |name: &str, note: &str| {
        object(vec![(
            "properties",
            object(vec![(name, object(vec![("description", word(note))]))]),
        )])
    };
    let schema = object(vec![(
        "properties",
        object(vec![(
            "mode",
            object(vec![
                ("allOf", list(vec![branch("a", "from allOf")])),
                ("anyOf", list(vec![branch("b", "from anyOf"), branch("a", "later wins")])),
                ("oneOf", list(vec![branch("c", "from oneOf")])),
            ]),
        )]),
    )]);
    let info = extract_schema_info(&schema, &FieldPath::new());
    assert_eq!(known(&info), vec!["mode", "mode.a", "mode.b", "mode.c"]);
    assert_eq!(comment(&info, &["mode", "a"]), Some("later wins".to_string()));
    assert_eq!(comment(&info, &["mode", "b"]), Some("from anyOf".to_string()));
    assert_eq!(comment(&info, &["mode", "c"]), Some("from oneOf".to_string()));
}

#[test]
fn root_combinators_and_items_are_walked() {
    let schema = object(vec![
        (
            "allOf",
            list(vec![object(vec![(
                "properties",
                object(vec![("shared", SchemaNode::Other)]),
            )])]),
        ),
        ("properties", object(vec![("own", SchemaNode::Other)])),
        (
            "items",
            object(vec![("properties", object(vec![("element", SchemaNode::Other)]))]),
        ),
    ]);
    let info = extract_schema_info(&schema, &FieldPath::new());
    assert_eq!(known(&info), vec!["shared", "own", "element"]);
}

#[test]
fn items_attach_to_the_array_path() {
    let schema = object(vec![(
        "properties",
        object(vec![(
            "servers",
            object(vec![
                ("type", word("array")),
                (
                    "items",
                    object(vec![(
                        "properties",
                        object(vec![("host", object(vec![("description", word("Host"))]))]),
                    )]),
                ),
            ]),
        )]),
    )]);
    let info = extract_schema_info(&schema, &FieldPath::new());
    assert_eq!(known(&info), vec!["servers", "servers.host"]);
    assert_eq!(comment(&info, &["servers", "host"]), Some("Host".to_string()));
}

#[test]
fn malformed_nodes_contribute_nothing() {
    for schema in [
        SchemaNode::Other,
        word("text"),
        list(vec![]),
        object(vec![]),
        object(vec![("properties", word("not an object"))]),
        object(vec![("properties", list(vec![]))]),
        object(vec![("allOf", word("not a list")), ("$ref", SchemaNode::Other)]),
    ] {
        let info = extract_schema_info(&schema, &FieldPath::new());
        assert_eq!(info.all_fields.len(), 0);
        assert_eq!(info.optional_fields.len(), 0);
        assert_eq!(info.comments.len(), 0);
    }
}

#[test]
fn required_that_is_no_list_makes_everything_optional() {
    let schema = object(vec![
        ("properties", object(vec![("a", SchemaNode::Other)])),
        ("required", word("a")),
    ]);
    let info = extract_schema_info(&schema, &FieldPath::new());
    assert_eq!(optional(&info), vec!["a"]);
}

#[test]
fn description_that_is_no_string_is_no_comment() {
    let schema = object(vec![(
        "properties",
        object(vec![("a", object(vec![("description", list(vec![word("x")]))]))]),
    )]);
    let info = extract_schema_info(&schema, &FieldPath::new());
    assert_eq!(known(&info), vec!["a"]);
    assert_eq!(comment(&info, &["a"]), None);
}

#[test]
fn first_member_of_a_name_is_the_one_read() {
    let schema = object(vec![
        ("properties", object(vec![("first", SchemaNode::Other)])),
        ("properties", object(vec![("second", SchemaNode::Other)])),
    ]);
    let info = extract_schema_info(&schema, &FieldPath::new());
    assert_eq!(known(&info), vec!["first"]);
}

#[test]
fn a_definition_that_refers_to_itself_is_followed_once() {
    let schema = object(vec![
        ("properties", object(vec![("node", object(vec![("$ref", word("#/$defs/Node"))]))])),
        (
            "$defs",
            object(vec![(
                "Node",
                object(vec![(
                    "properties",
                    object(vec![("next", object(vec![("$ref", word("#/$defs/Node"))]))]),
                )]),
            )]),
        ),
    ]);
    let info = extract_schema_info(&schema, &FieldPath::new());
    assert_eq!(known(&info), vec!["node", "node.next"]);
}

#[test]
fn nested_walk_obeys_its_depth() {
    let definitions = vec![(
        "A".to_string(),
        object(vec![("properties", object(vec![("x", SchemaNode::Other)]))]),
    )];
    let node = object(vec![("$ref", word("#/$defs/A"))]);

    let mut info = SchemaInfo::new();
    extract_nested_schema_info(&node, &path(&["p"]), &mut info, &definitions, "#/$defs/", 0);
    assert_eq!(info.all_fields.len(), 0);

    let mut info = SchemaInfo::new();
    extract_nested_schema_info(&node, &path(&["p"]), &mut info, &definitions, "#/$defs/", 1);
    assert_eq!(known(&info), vec!["p.x"]);
    assert_eq!(optional(&info), vec!["p.x"]);
}

#[test]
fn nested_walk_keeps_what_the_index_held() {
    let mut info = SchemaInfo::new();
    info.all_fields.insert(path(&["kept"]));
    info.comments.insert(path(&["a"]), "old".to_string());
    let node = object(vec![(
        "properties",
        object(vec![("a", object(vec![("description", word("new"))]))]),
    )]);
    extract_nested_schema_info(&node, &FieldPath::new(), &mut info, &vec![], "#/$defs/", 0);
    assert_eq!(known(&info), vec!["kept", "a"]);
    assert_eq!(comment(&info, &["a"]), Some("new".to_string()));
}

#[test]
fn older_dialect_keeps_definitions_elsewhere() {
    let schema = object(vec![
        (
            "properties",
            object(vec![(
                "db",
                object(vec![
                    ("description", word("Database")),
                    ("$ref", word("#/definitions/Db")),
                ]),
            )]),
        ),
        ("required", list(vec![word("db")])),
        (
            "definitions",
            object(vec![(
                "Db",
                object(vec![(
                    "properties",
                    object(vec![("url", object(vec![("description", word("Where"))]))]),
                )]),
            )]),
        ),
    ]);
    let info = extract_all_comments(&schema, &FieldPath::new());
    assert_eq!(known(&info), vec!["db", "db.url"]);
    assert_eq!(optional(&info), vec!["db.url"]);
    assert_eq!(comment(&info, &["db"]), Some("Database".to_string()));
    assert_eq!(comment(&info, &["db", "url"]), Some("Where".to_string()));

    let newer = extract_schema_info(&schema, &FieldPath::new());
    assert_eq!(known(&newer), vec!["db"]);
}

#[test]
fn nested_walk_takes_the_given_lead_off_references() {
    let definitions = vec![(
        "A".to_string(),
        object(vec![("properties", object(vec![("x", SchemaNode::Other)]))]),
    )];
    let node = object(vec![("$ref", word("lead:A"))]);

    let mut info = SchemaInfo::new();
    extract_nested_schema_info(&node, &FieldPath::new(), &mut info, &definitions, "lead:", 1);
    assert_eq!(known(&info), vec!["x"]);

    let mut info = SchemaInfo::new();
    extract_nested_schema_info(&node, &FieldPath::new(), &mut info, &definitions, "other:", 1);
    assert_eq!(info.all_fields.len(), 0);
}

#[test]
fn description_of_the_schema_is_the_comment_at_the_starting_path() {
    let schema = object(vec![
        ("description", word("About the whole")),
        (
            "properties",
            object(vec![("a", object(vec![("description", word("About a"))]))]),
        ),
    ]);
    let info = extract_schema_info(&schema, &FieldPath::new());
    assert_eq!(comment(&info, &[]), Some("About the whole".to_string()));
    assert_eq!(comment(&info, &["a"]), Some("About a".to_string()));
    assert_eq!(known(&info), vec!["a"]);
    assert!(optional(&info).contains(&"a".to_string()));

    let info = extract_all_comments(&schema, &path(&["at"]));
    assert_eq!(comment(&info, &["at"]), Some("About the whole".to_string()));
    assert_eq!(comment(&info, &[]), None);
    assert_eq!(known(&info), vec!["at.a"]);

    let plain = object(vec![("description", list(vec![]))]);
    let info = extract_schema_info(&plain, &FieldPath::new());
    assert_eq!(info.comments.len(), 0);
}
