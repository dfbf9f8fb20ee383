//! Metadata extraction: walks a schema description and builds the index of
//! comments, known paths and optional paths.

use crate::field_path::FieldPath;
use crate::index::{PathMap, PathSet, with_path};
use crate::layout::{Index, index_of};
use crate::text::{chars_of, push_range, text_is};
use vstd::prelude::*;

verus! {

/// A node of a schema description: a JSON-like tree in which objects keep
/// their members in order. An object is meant to hold each name once; where
/// a name occurs twice, the first member of that name is the one that is
/// read.
#[derive(Debug, PartialEq)]
pub enum SchemaNode {
    /// A scalar that is no string: null, a boolean or a number. The walk
    /// reads nothing from it.
    Other,
    /// A string.
    Text(String),
    /// An array of nodes.
    List(Vec<SchemaNode>),
    /// An object: its members by name, in order.
    Object(Vec<(String, SchemaNode)>),
}

/// The mathematical model of a [`SchemaNode`].
pub enum SchemaView {
    Other,
    Text(Seq<char>),
    List(Seq<SchemaView>),
    Object(Seq<(Seq<char>, SchemaView)>),
}

impl View for SchemaNode {
    type V = SchemaView;

    open spec fn view(&self) -> SchemaView
        decreases self,
    {
        match self {
            SchemaNode::Other => SchemaView::Other,
            SchemaNode::Text(text) => SchemaView::Text(text@),
            SchemaNode::List(items) => SchemaView::List(
                Seq::new(
                    items.len() as nat,
                    |i: int|
                        if 0 <= i < items.len() {
                            items[i]@
                        } else {
                            SchemaView::Other
                        },
                ),
            ),
            SchemaNode::Object(members) => SchemaView::Object(
                Seq::new(
                    members.len() as nat,
                    |i: int|
                        (
                            members[i].0@,
                            if 0 <= i < members.len() {
                                members[i].1@
                            } else {
                                SchemaView::Other
                            },
                        ),
                ),
            ),
        }
    }
}

/// The members of an object, each as its name and the model of its node.
pub open spec fn members_view(members: Seq<(String, SchemaNode)>) -> Seq<(Seq<char>, SchemaView)> {
    Seq::new(members.len(), |i: int| (members[i].0@, members[i].1@))
}

/// The nodes of a list, each as its model.
pub open spec fn nodes_view(nodes: Seq<SchemaNode>) -> Seq<SchemaView> {
    Seq::new(nodes.len(), |i: int| nodes[i]@)
}

/// The model of an object is the list of its members' models.
pub proof fn lemma_object_view(node: SchemaNode)
    requires
        node is Object,
    ensures
        node@ == SchemaView::Object(members_view(node->Object_0@)),
{
    assert(node@->Object_0 =~= members_view(node->Object_0@));
}

/// The model of a list is the list of its nodes' models.
pub proof fn lemma_list_view(node: SchemaNode)
    requires
        node is List,
    ensures
        node@ == SchemaView::List(nodes_view(node->List_0@)),
{
    assert(node@->List_0 =~= nodes_view(node->List_0@));
}

/// Position of the first of the first `n` members that is named `name`.
pub open spec fn find_member(
    members: Seq<(Seq<char>, SchemaView)>,
    name: Seq<char>,
    n: nat,
) -> Option<int>
    decreases n,
{
    if n == 0 {
        None
    } else {
        match find_member(members, name, (n - 1) as nat) {
            Some(i) => Some(i),
            None => if n <= members.len() && members[n - 1].0 == name {
                Some(n - 1)
            } else {
                None
            },
        }
    }
}

/// The text of the member `name`, where the node is an object and that
/// member is a string.
pub open spec fn text_member(node: SchemaView, name: Seq<char>) -> Option<Seq<char>> {
    match node {
        SchemaView::Object(members) => match find_member(members, name, members.len()) {
            Some(i) => match members[i].1 {
                SchemaView::Text(text) => Some(text),
                _ => None,
            },
            None => None,
        },
        _ => None,
    }
}

/// The name that a reference points to: what follows `lead`, or the
/// reference as a whole where it does not start with `lead`.
pub open spec fn reference_name(reference: Seq<char>, lead: Seq<char>) -> Seq<char> {
    if lead.is_prefix_of(reference) {
        reference.skip(lead.len() as int)
    } else {
        reference
    }
}

/// Whether the object lists `name` in its `required` member. Entries of the
/// list that are no strings are passed over.
pub open spec fn is_required(members: Seq<(Seq<char>, SchemaView)>, name: Seq<char>) -> bool {
    match find_member(members, "required"@, members.len()) {
        Some(i) => match members[i].1 {
            SchemaView::List(names) => names.contains(SchemaView::Text(name)),
            _ => false,
        },
        None => false,
    }
}

/// The definitions table of a root node: the members of the object that it
/// holds under `name`, or none.
pub open spec fn definitions_of(root: SchemaView, name: Seq<char>) -> Seq<(Seq<char>, SchemaView)> {
    match root {
        SchemaView::Object(members) => match find_member(members, name, members.len()) {
            Some(i) => match members[i].1 {
                SchemaView::Object(definitions) => definitions,
                _ => Seq::empty(),
            },
            None => Seq::empty(),
        },
        _ => Seq::empty(),
    }
}

/// The index with the property at `path` recorded: the path is known, it is
/// optional unless required, and its description, if any, is its comment.
pub open spec fn with_property(
    info: Index,
    path: Seq<Seq<char>>,
    required: bool,
    description: Option<Seq<char>>,
) -> Index {
    Index {
        comments: match description {
            Some(text) => info.comments.insert(path, text),
            None => info.comments,
        },
        all_fields: with_path(info.all_fields, path),
        optional_fields: if required {
            info.optional_fields
        } else {
            with_path(info.optional_fields, path)
        },
        formats: info.formats,
    }
}

/// The index after the walk of `node` at `path`.
///
/// At an object, in this order: a reference is resolved in the definitions
/// table and its target walked at the same path; every branch of `allOf`,
/// `anyOf` and `oneOf` is walked at the same path; every property is
/// recorded and walked at the path extended by its name; `items` is walked
/// at the same path. Anything else adds nothing.
///
/// `depth` is the number of references that may still be followed one inside
/// the other; a reference met at depth zero is left alone, which keeps the
/// walk finite where definitions refer back to themselves. A chain of more
/// references than there are definitions names some definition twice, so
/// with `depth` set to the size of the definitions table no reference of a
/// schema without such a cycle is left alone.
pub open spec fn walk(
    node: SchemaView,
    path: Seq<Seq<char>>,
    info: Index,
    definitions: Seq<(Seq<char>, SchemaView)>,
    lead: Seq<char>,
    depth: nat,
) -> Index
    decreases depth, node, 0nat,
{
    match node {
        SchemaView::Object(members) => {
            let i1 = match text_member(node, "$ref"@) {
                Some(reference) => match find_member(
                    definitions,
                    reference_name(reference, lead),
                    definitions.len(),
                ) {
                    Some(d) => if depth > 0 && 0 <= d < definitions.len() {
                        walk(definitions[d].1, path, info, definitions, lead, (depth - 1) as nat)
                    } else {
                        info
                    },
                    None => info,
                },
                None => info,
            };
            let i2 = walk_branches(members, "allOf"@, path, i1, definitions, lead, depth);
            let i3 = walk_branches(members, "anyOf"@, path, i2, definitions, lead, depth);
            let i4 = walk_branches(members, "oneOf"@, path, i3, definitions, lead, depth);
            let i5 = match find_member(members, "properties"@, members.len()) {
                Some(p) => if 0 <= p < members.len() {
                    match members[p].1 {
                        SchemaView::Object(properties) => walk_properties(
                            properties,
                            properties.len(),
                            members,
                            path,
                            i4,
                            definitions,
                            lead,
                            depth,
                        ),
                        _ => i4,
                    }
                } else {
                    i4
                },
                None => i4,
            };
            match find_member(members, "items"@, members.len()) {
                Some(t) => if 0 <= t < members.len() {
                    walk(members[t].1, path, i5, definitions, lead, depth)
                } else {
                    i5
                },
                None => i5,
            }
        },
        _ => info,
    }
}

/// The index after the walk of every branch listed under `name`.
pub open spec fn walk_branches(
    members: Seq<(Seq<char>, SchemaView)>,
    name: Seq<char>,
    path: Seq<Seq<char>>,
    info: Index,
    definitions: Seq<(Seq<char>, SchemaView)>,
    lead: Seq<char>,
    depth: nat,
) -> Index
    decreases depth, members, 0nat,
{
    match find_member(members, name, members.len()) {
        Some(b) => if 0 <= b < members.len() {
            match members[b].1 {
                SchemaView::List(branches) => walk_list(
                    branches,
                    branches.len(),
                    path,
                    info,
                    definitions,
                    lead,
                    depth,
                ),
                _ => info,
            }
        } else {
            info
        },
        None => info,
    }
}

/// The index after the walk of the first `n` nodes of a list, in order.
pub open spec fn walk_list(
    nodes: Seq<SchemaView>,
    n: nat,
    path: Seq<Seq<char>>,
    info: Index,
    definitions: Seq<(Seq<char>, SchemaView)>,
    lead: Seq<char>,
    depth: nat,
) -> Index
    decreases depth, nodes, n,
{
    if n == 0 || n > nodes.len() {
        info
    } else {
        let before = walk_list(nodes, (n - 1) as nat, path, info, definitions, lead, depth);
        walk(nodes[n - 1], path, before, definitions, lead, depth)
    }
}

/// The index after the first `n` properties are recorded and walked, in
/// order. `owner` is the object that declares them.
pub open spec fn walk_properties(
    properties: Seq<(Seq<char>, SchemaView)>,
    n: nat,
    owner: Seq<(Seq<char>, SchemaView)>,
    path: Seq<Seq<char>>,
    info: Index,
    definitions: Seq<(Seq<char>, SchemaView)>,
    lead: Seq<char>,
    depth: nat,
) -> Index
    decreases depth, properties, n,
{
    if n == 0 || n > properties.len() {
        info
    } else {
        let before = walk_properties(
            properties,
            (n - 1) as nat,
            owner,
            path,
            info,
            definitions,
            lead,
            depth,
        );
        let property = properties[n - 1];
        let here = path.push(property.0);
        let recorded = with_property(
            before,
            here,
            is_required(owner, property.0),
            text_member(property.1, "description"@),
        );
        walk(property.1, here, recorded, definitions, lead, depth)
    }
}

/// The index with nothing in it.
pub open spec fn empty_index() -> Index {
    index_of(Map::empty(), Seq::empty(), Seq::empty(), Map::empty())
}

/// The index with `description`, if there is one, as the comment at `path`.
pub open spec fn with_description(
    info: Index,
    path: Seq<Seq<char>>,
    description: Option<Seq<char>>,
) -> Index {
    index_of(
        match description {
            Some(text) => info.comments.insert(path, text),
            None => info.comments,
        },
        info.all_fields,
        info.optional_fields,
        info.formats,
    )
}

/// The index extracted from the schema `root`, starting at `prefix`, where
/// the definitions stand under `table` in the root and references name them
/// behind `lead`. The description of the root itself is the comment at
/// `prefix`; the walk of the root adds the rest.
pub open spec fn extraction_with(
    root: SchemaView,
    prefix: Seq<Seq<char>>,
    table: Seq<char>,
    lead: Seq<char>,
) -> Index {
    walk(
        root,
        prefix,
        with_description(empty_index(), prefix, text_member(root, "description"@)),
        definitions_of(root, table),
        lead,
        definitions_of(root, table).len(),
    )
}

/// The index extracted from the schema `root`, starting at `prefix`, with
/// the definitions under `$defs`.
pub open spec fn extraction(root: SchemaView, prefix: Seq<Seq<char>>) -> Index {
    extraction_with(root, prefix, "$defs"@, "#/$defs/"@)
}

/// The metadata extracted from a schema.
#[derive(Debug)]
pub struct SchemaInfo {
    /// Comment text by field path.
    pub comments: PathMap,
    /// Every field path that the schema declares.
    pub all_fields: PathSet,
    /// The declared field paths that are optional.
    pub optional_fields: PathSet,
    /// Layout directive tag by field path.
    pub formats: PathMap,
}

impl View for SchemaInfo {
    type V = Index;

    open spec fn view(&self) -> Index {
        index_of(self.comments@, self.all_fields@, self.optional_fields@, self.formats@)
    }
}

impl SchemaInfo {
    /// Creates an index with nothing in it: no comment, no known path, no
    /// optional path and no directive, and no path in the key order of
    /// either map.
    pub fn new() -> (info: Self)
        ensures
            info@ == empty_index(),
            info.comments.keys() == Seq::<Seq<Seq<char>>>::empty(),
            info.formats.keys() == Seq::<Seq<Seq<char>>>::empty(),
    {
        SchemaInfo {
            comments: PathMap::new(),
            all_fields: PathSet::new(),
            optional_fields: PathSet::new(),
            formats: PathMap::new(),
        }
    }
}

/// Finds the first member named `name`.
fn member_position(members: &Vec<(String, SchemaNode)>, name: &str) -> (at: Option<usize>)
    ensures
        match at {
            Some(i) => find_member(members_view(members@), name@, members@.len()) == Some(
                i as int,
            ) && i < members.len(),
            None => find_member(members_view(members@), name@, members@.len()).is_none(),
        },
{
    let ghost view = members_view(members@);
    let mut at: Option<usize> = None;
    let mut i: usize = 0;
    while i < members.len()
        invariant
            i <= members.len(),
            view == members_view(members@),
            match at {
                Some(j) => find_member(view, name@, i as nat) == Some(j as int) && j < i,
                None => find_member(view, name@, i as nat).is_none(),
            },
        decreases members.len() - i,
    {
        if at.is_none() && text_is(members[i].0.as_str(), name) {
            at = Some(i);
        }
        i = i + 1;
    }
    at
}

/// Reads the text of the member `name`, where the node is an object and that
/// member is a string.
fn member_text<'a>(node: &'a SchemaNode, name: &str) -> (text: Option<&'a String>)
    ensures
        match text {
            Some(t) => text_member(node@, name@) == Some(t@),
            None => text_member(node@, name@).is_none(),
        },
{
    match node {
        SchemaNode::Object(members) => {
            proof {
                lemma_object_view(*node);
            }
            match member_position(members, name) {
                Some(i) => match &members[i].1 {
                    SchemaNode::Text(text) => Some(text),
                    _ => None,
                },
                None => None,
            }
        },
        _ => None,
    }
}

/// Takes `lead` off the front of a reference that starts with it.
fn referenced_name(reference: &str, lead: &str) -> (name: String)
    ensures
        name@ == reference_name(reference@, lead@),
{
    let chars = chars_of(reference);
    let front = chars_of(lead);
    let mut name = String::new();
    if front.len() <= chars.len() {
        let mut i: usize = 0;
        while i < front.len()
            invariant
                i <= front.len() <= chars.len(),
                chars@ == reference@,
                front@ == lead@,
                name@ == Seq::<char>::empty(),
                forall|j: int| 0 <= j < i ==> chars@[j] == front@[j],
            decreases front.len() - i,
        {
            if chars[i] != front[i] {
                assert(!front@.is_prefix_of(chars@)) by {
                    if front@.is_prefix_of(chars@) {
                        let head = chars@.subrange(0, front@.len() as int);
                        assert(head[i as int] == front@[i as int]);
                    }
                }
                push_range(&mut name, &chars, 0, chars.len());
                assert(name@ =~= chars@);
                return name;
            }
            i = i + 1;
        }
        assert(chars@.subrange(0, front@.len() as int) =~= front@);
        push_range(&mut name, &chars, front.len(), chars.len());
        assert(name@ =~= chars@.skip(front@.len() as int));
        name
    } else {
        push_range(&mut name, &chars, 0, chars.len());
        assert(name@ =~= chars@);
        name
    }
}

/// Checks whether the object lists `name` in its `required` member.
fn lists_required(members: &Vec<(String, SchemaNode)>, name: &String) -> (r: bool)
    ensures
        r == is_required(members_view(members@), name@),
{
    match member_position(members, "required") {
        Some(i) => match &members[i].1 {
            SchemaNode::List(names) => {
                proof {
                    lemma_list_view(members@[i as int].1);
                }
                let ghost view = nodes_view(names@);
                let mut k: usize = 0;
                while k < names.len()
                    invariant
                        k <= names.len(),
                        i < members.len(),
                        view == nodes_view(names@),
                        members_view(members@)[i as int].1 == SchemaView::List(view),
                        find_member(members_view(members@), "required"@, members@.len()) == Some(
                            i as int,
                        ),
                        forall|j: int| 0 <= j < k ==> view[j] != SchemaView::Text(name@),
                    decreases names.len() - k,
                {
                    match &names[k] {
                        SchemaNode::Text(text) => {
                            if *text == *name {
                                assert(view[k as int] == SchemaView::Text(name@));
                                return true;
                            }
                        },
                        _ => {},
                    }
                    k = k + 1;
                }
                false
            },
            _ => false,
        },
        None => false,
    }
}

/// Walks the branches listed under `name` at the same path.
fn extract_branches(
    members: &Vec<(String, SchemaNode)>,
    name: &str,
    prefix: &FieldPath,
    info: &mut SchemaInfo,
    definitions: &Vec<(String, SchemaNode)>,
    lead: &str,
    depth: usize,
)
    ensures
        final(info)@ == walk_branches(
            members_view(members@),
            name@,
            prefix@,
            old(info)@,
            members_view(definitions@),
            lead@,
            depth as nat,
        ),
    decreases depth, members_view(members@), 0nat,
{
    let ghost view = members_view(members@);
    match member_position(members, name) {
        Some(b) => match &members[b].1 {
            SchemaNode::List(branches) => {
                proof {
                    lemma_list_view(members@[b as int].1);
                }
                let ghost nodes = nodes_view(branches@);
                let mut k: usize = 0;
                while k < branches.len()
                    invariant
                        k <= branches.len(),
                        b < members.len(),
                        view == members_view(members@),
                        view[b as int].1 == SchemaView::List(nodes),
                        nodes == nodes_view(branches@),
                        info@ == walk_list(
                            nodes,
                            k as nat,
                            prefix@,
                            old(info)@,
                            members_view(definitions@),
                            lead@,
                            depth as nat,
                        ),
                    decreases branches.len() - k,
                {
                    assert(nodes[k as int] == branches@[k as int]@);
                    assert(decreases_to!(view => view[b as int]));
                    assert(decreases_to!(view[b as int] => view[b as int].1));
                    assert(decreases_to!(view[b as int].1 => view[b as int].1->List_0));
                    assert(decreases_to!(nodes => nodes[k as int]));
                    extract_nested_schema_info(
                        &branches[k],
                        prefix,
                        info,
                        definitions,
                        lead,
                        depth,
                    );
                    k = k + 1;
                }
            },
            _ => {},
        },
        None => {},
    }
}

/// Walks one node of the schema at the path `prefix` and adds what it finds
/// to `info`. References are looked up in `definitions` by the name that
/// follows `lead`; `depth` bounds how many of them are followed one inside
/// the other.
pub fn extract_nested_schema_info(
    schema: &SchemaNode,
    prefix: &FieldPath,
    info: &mut SchemaInfo,
    definitions: &Vec<(String, SchemaNode)>,
    lead: &str,
    depth: usize,
)
    ensures
        final(info)@ == walk(
            schema@,
            prefix@,
            old(info)@,
            members_view(definitions@),
            lead@,
            depth as nat,
        ),
    decreases depth, schema@, 0nat,
{
    let ghost table = members_view(definitions@);
    match schema {
        SchemaNode::Object(members) => {
            proof {
                lemma_object_view(*schema);
            }
            let ghost view = members_view(members@);

            match member_text(schema, "$ref") {
                Some(reference) => {
                    let name = referenced_name(reference.as_str(), lead);
                    match member_position(definitions, name.as_str()) {
                        Some(d) => {
                            if depth > 0 {
                                extract_nested_schema_info(
                                    &definitions[d].1,
                                    prefix,
                                    info,
                                    definitions,
                                    lead,
                                    depth - 1,
                                );
                            }
                        },
                        None => {},
                    }
                },
                None => {},
            }
            assert(decreases_to!(schema@ => schema@->Object_0));
            extract_branches(members, "allOf", prefix, info, definitions, lead, depth);
            extract_branches(members, "anyOf", prefix, info, definitions, lead, depth);
            extract_branches(members, "oneOf", prefix, info, definitions, lead, depth);

            match member_position(members, "properties") {
                Some(p) => match &members[p].1 {
                    SchemaNode::Object(properties) => {
                        proof {
                            lemma_object_view(members@[p as int].1);
                        }
                        let ghost fields = members_view(properties@);
                        let ghost start = info@;
                        let mut k: usize = 0;
                        while k < properties.len()
                            invariant
                                k <= properties.len(),
                                p < members.len(),
                                view == members_view(members@),
                                schema@ == SchemaView::Object(view),
                                view[p as int].1 == SchemaView::Object(fields),
                                fields == members_view(properties@),
                                table == members_view(definitions@),
                                info@ == walk_properties(
                                    fields,
                                    k as nat,
                                    view,
                                    prefix@,
                                    start,
                                    table,
                                    lead@,
                                    depth as nat,
                                ),
                            decreases properties.len() - k,
                        {
                            let here = prefix.child(properties[k].0.clone());
                            info.all_fields.insert(prefix.child(properties[k].0.clone()));
                            if !lists_required(members, &properties[k].0) {
                                info.optional_fields.insert(
                                    prefix.child(properties[k].0.clone()),
                                );
                            }
                            match member_text(&properties[k].1, "description") {
                                Some(description) => {
                                    info.comments.insert(
                                        prefix.child(properties[k].0.clone()),
                                        description.clone(),
                                    );
                                },
                                None => {},
                            }
                            assert(fields[k as int].1 == properties@[k as int].1@);
                            assert(decreases_to!(schema@ => schema@->Object_0));
                            assert(decreases_to!(view => view[p as int]));
                            assert(decreases_to!(view[p as int] => view[p as int].1));
                            assert(decreases_to!(view[p as int].1 => view[p as int].1->Object_0));
                            assert(decreases_to!(fields => fields[k as int]));
                            assert(decreases_to!(fields[k as int] => fields[k as int].1));
                            extract_nested_schema_info(
                                &properties[k].1,
                                &here,
                                info,
                                definitions,
                                lead,
                                depth,
                            );
                            k = k + 1;
                        }
                    },
                    _ => {},
                },
                None => {},
            }

            match member_position(members, "items") {
                Some(t) => {
                    assert(view[t as int].1 == members@[t as int].1@);
                    assert(decreases_to!(schema@ => schema@->Object_0));
                    assert(decreases_to!(view => view[t as int]));
                    assert(decreases_to!(view[t as int] => view[t as int].1));
                    extract_nested_schema_info(
                        &members[t].1,
                        prefix,
                        info,
                        definitions,
                        lead,
                        depth,
                    );
                },
                None => {},
            }
        },
        _ => {},
    }
}

/// Extracts the index from a schema whose definitions stand under `table`
/// in the root and whose references name them behind `lead`.
fn extract_with(
    schema: &SchemaNode,
    prefix: &FieldPath,
    table: &str,
    lead: &str,
) -> (info: SchemaInfo)
    ensures
        info@ == extraction_with(schema@, prefix@, table@, lead@),
{
    let mut info = SchemaInfo::new();
    let none: Vec<(String, SchemaNode)> = Vec::new();
    assert(members_view(none@) =~= Seq::<(Seq<char>, SchemaView)>::empty());
    let definitions: &Vec<(String, SchemaNode)> = match schema {
        SchemaNode::Object(members) => {
            proof {
                lemma_object_view(*schema);
            }
            match member_position(members, table) {
                Some(i) => match &members[i].1 {
                    SchemaNode::Object(definitions) => {
                        proof {
                            lemma_object_view(members@[i as int].1);
                        }
                        definitions
                    },
                    _ => &none,
                },
                None => &none,
            }
        },
        _ => &none,
    };
    match member_text(schema, "description") {
        Some(description) => {
            info.comments.insert(prefix.duplicate(), description.clone());
        },
        None => {},
    }
    extract_nested_schema_info(schema, prefix, &mut info, definitions, lead, definitions.len());
    info
}

/// Extracts the index of comments, known paths and optional paths from a
/// schema, starting at the path `prefix`. The description of the schema
/// itself becomes the comment at `prefix`. Definitions are looked up under
/// `$defs` and referred to as `#/$defs/name`.
pub fn extract_schema_info(schema: &SchemaNode, prefix: &FieldPath) -> (info: SchemaInfo)
    ensures
        info@ == extraction(schema@, prefix@),
{
    extract_with(schema, prefix, "$defs", "#/$defs/")
}

/// Extracts the index of comments, known paths and optional paths from a
/// schema of the older dialect, starting at the path `prefix`. The
/// description of the schema itself becomes the comment at `prefix`.
/// Definitions are looked up under `definitions` and referred to as
/// `#/definitions/name`.
pub fn extract_all_comments(schema: &SchemaNode, prefix: &FieldPath) -> (info: SchemaInfo)
    ensures
        info@ == extraction_with(schema@, prefix@, "definitions"@, "#/definitions/"@),
{
    extract_with(schema, prefix, "definitions", "#/definitions/")
}

} // verus!
