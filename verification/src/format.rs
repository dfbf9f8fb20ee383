//! The renderer: walks a value with its index and writes the document.

use crate::calm::{
    calm_child, calm_child_dotted, calm_children, calm_dotted_child, calm_entries, calm_entry,
    calm_flat, calm_key, calm_leaf, calm_path, calm_placeholders, calm_table, calm_value,
    lemma_all_entries_calm, quiet_child_dotted, quiet_children, quiet_dotted_child, quiet_entries,
    quiet_entry, quiet_flat, quiet_leaf, quiet_scalar, quiet_table, quiet_value,
};
use crate::comment::append_comment;
use crate::datum::{
    Datum, DatumView, entries_view, is_scalar, items_view, lemma_array_view, lemma_table_view,
    scalar,
};
use crate::directive::{Directive, directive_at};
use crate::field_path::FieldPath;
use crate::index::{PathMap, PathSet};
use crate::layout::{
    absent_optional, all_scalar, array_header, array_items_text, array_tables_text, block_text,
    child_dotted_text, child_flat_text, dotted_key, dotted_lines, encoded_path, flatten_text,
    has_commented_child, has_key, index_of, inline_items, inline_keys_text, inline_table_line,
    is_section, item_texts, key_line, keys_of_kind, Kind, kind_of, lemma_keys_of_kind,
    nested_table_text, nested_tables_text, placeholders_text, plain_line, root_comment,
    scalar_items, scalar_text, scalars_only, section_header, separated, table_text, value_text,
};
use crate::spacing::{
    law_no_three_line_feeds, law_one_empty_line_before_every_section, lemma_inner_concat,
    lemma_join_inner, lemma_no_feed, lemma_plain_scalars, lemma_value_marks, sections_spaced,
};
use crate::text::{ends_with, inner, join, lemma_join_step, no_triple, push_char, trim_of};
use crate::writer::{document_text, toml_key, write_boolean, write_integer, write_key, write_string};
use vstd::prelude::*;

verus! {

/// Adds the blank line that precedes a section, unless nothing has been
/// written yet or the text already ends with one.
pub fn append_section_separator(result: &mut String)
    ensures
        final(result)@ == separated(old(result)@),
{
    proof {
        reveal_strlit("\n\n");
        assert("\n\n"@ =~= seq!['\n', '\n']);
    }
    if !result.as_str().is_empty() && !ends_with(result.as_str(), "\n\n") {
        result.append("\n");
    }
}

/// Checks whether a direct child of the table at `path` has a comment.
pub fn has_comments(
    table: &Vec<(String, Datum)>,
    comments: &PathMap,
    path: &FieldPath,
) -> (r: bool)
    ensures
        r == has_commented_child(entries_view(table@), comments@, path@),
{
    let ghost entries = entries_view(table@);
    let mut i: usize = 0;
    while i < table.len()
        invariant
            i <= table.len(),
            entries == entries_view(table@),
            forall|j: int|
                0 <= j < i ==> !comments@.contains_key(#[trigger] path@.push(entries[j].0)),
        decreases table.len() - i,
    {
        let child = path.child(table[i].0.clone());
        if comments.contains_key(&child) {
            assert(comments@.contains_key(path@.push(entries[i as int].0)));
            return true;
        }
        i = i + 1;
    }
    false
}

/// Checks whether every value of the table is a scalar.
fn all_scalar_values(table: &Vec<(String, Datum)>) -> (r: bool)
    ensures
        r == all_scalar(entries_view(table@)),
{
    let ghost entries = entries_view(table@);
    let mut i: usize = 0;
    while i < table.len()
        invariant
            i <= table.len(),
            entries == entries_view(table@),
            forall|j: int| 0 <= j < i ==> scalar(#[trigger] entries[j].1),
        decreases table.len() - i,
    {
        if !is_scalar(&table[i].1) {
            assert(!scalar(entries[i as int].1));
            return false;
        }
        i = i + 1;
    }
    true
}

/// Checks whether every element of an array is a scalar.
fn all_scalar_items(items: &Vec<Datum>) -> (r: bool)
    ensures
        r == scalars_only(items_view(items@)),
{
    let ghost views = items_view(items@);
    let mut i: usize = 0;
    while i < items.len()
        invariant
            i <= items.len(),
            views == items_view(items@),
            forall|j: int| 0 <= j < i ==> scalar(#[trigger] views[j]),
        decreases items.len() - i,
    {
        if !is_scalar(&items[i]) {
            assert(!scalar(views[i as int]));
            return false;
        }
        i = i + 1;
    }
    true
}

/// Renders a value as it stands behind `key = `, in an array or in an inline
/// map.
pub fn format_value(
    value: &Datum,
    comments: &PathMap,
    formats: &PathMap,
    path: &FieldPath,
) -> (text: String)
    ensures
        text@ == value_text(value@, comments@, formats@, path@),
        quiet_value(value@, comments@, formats@, path@) ==> inner(text@),
    decreases value@,
{
    let mut out = String::new();
    let ghost quiet = quiet_value(value@, comments@, formats@, path@);
    match value {
        Datum::String(s) => {
            write_string(&mut out, s.as_str());
            assert(out@ =~= scalar_text(value@));
        },
        Datum::Integer(i) => {
            write_integer(&mut out, *i);
            assert(out@ =~= scalar_text(value@));
            proof {
                lemma_plain_scalars(*i as int, true);
            }
        },
        Datum::Float(literal) => {
            out.append(literal.as_str());
            assert(out@ =~= scalar_text(value@));
        },
        Datum::Boolean(b) => {
            write_boolean(&mut out, *b);
            assert(out@ =~= scalar_text(value@));
            proof {
                lemma_plain_scalars(0, *b);
            }
        },
        Datum::Array(items) => {
            proof {
                lemma_array_view(*value);
            }
            let ghost texts = item_texts(value@->Array_0, comments@, formats@, path@);
            let multiline: bool = items.len() > 0 && match Directive::lookup(formats, path) {
                Directive::Multiline => true,
                _ => false,
            } && all_scalar_items(items);
            let sep: &str = if multiline {
                ",\n  "
            } else {
                ", "
            };
            out.append(if multiline {
                "[\n  "
            } else {
                "["
            });
            let ghost open = out@;
            let mut i: usize = 0;
            proof {
                assert(out@ =~= open + join(texts.take(0), sep@));
            }
            while i < items.len()
                invariant
                    i <= items.len(),
                    *value == Datum::Array(*items),
                    texts == item_texts(value@->Array_0, comments@, formats@, path@),
                    texts.len() == items.len(),
                    value@->Array_0 == items_view(items@),
                    out@ == open + join(texts.take(i as int), sep@),
                    quiet == quiet_value(value@, comments@, formats@, path@),
                    quiet ==> forall|j: int| 0 <= j < i ==> inner(#[trigger] texts[j]),
                decreases items.len() - i,
            {
                if i > 0 {
                    out.append(sep);
                }
                assert(value@->Array_0[i as int] == items@[i as int]@);
                let item = format_value(&items[i], comments, formats, path);
                out.append(item.as_str());
                proof {
                    assert(item@ == texts[i as int]);
                    assert(quiet ==> quiet_value(
                        value@->Array_0[i as int],
                        comments@,
                        formats@,
                        path@,
                    ));
                    lemma_join_step(texts, sep@, i as int);
                    assert(out@ =~= open + join(texts.take(i + 1), sep@));
                }
                i = i + 1;
            }
            out.append(if multiline {
                ",\n]"
            } else {
                "]"
            });
            proof {
                assert(texts.take(items.len() as int) =~= texts);
                if quiet {
                    lemma_value_marks();
                    if multiline {
                        lemma_join_inner(texts, ",\n  "@);
                        lemma_inner_concat("[\n  "@, join(texts, ",\n  "@));
                        lemma_inner_concat("[\n  "@ + join(texts, ",\n  "@), ",\n]"@);
                    } else {
                        lemma_join_inner(texts, ", "@);
                        lemma_inner_concat("["@, join(texts, ", "@));
                        lemma_inner_concat("["@ + join(texts, ", "@), "]"@);
                    }
                }
            }
        },
        Datum::Table(entries) => {
            proof {
                lemma_table_view(*value);
            }
            let ghost view = entries_view(entries@);
            if entries.len() < 5 && all_scalar_values(entries) && !has_comments(
                entries,
                comments,
                path,
            ) {
                let ghost texts = scalar_items(view);
                out.append("{ ");
                let ghost open = out@;
                let mut i: usize = 0;
                proof {
                    assert(out@ =~= open + join(texts.take(0), ", "@));
                }
                while i < entries.len()
                    invariant
                        i <= entries.len(),
                        *value == Datum::Table(*entries),
                        view == entries_view(entries@),
                        value@ == DatumView::Table(view),
                        all_scalar(view),
                        texts == scalar_items(view),
                        out@ == open + join(texts.take(i as int), ", "@),
                        quiet == quiet_value(value@, comments@, formats@, path@),
                        quiet ==> forall|j: int| 0 <= j < i ==> inner(#[trigger] texts[j]),
                    decreases entries.len() - i,
                {
                    if i > 0 {
                        out.append(", ");
                    }
                    let mut item = String::new();
                    write_key(&mut item, entries[i].0.as_str());
                    item.append(" = ");
                    assert(scalar(view[i as int].1));
                    assert(value@->Table_0[i as int].1 == entries@[i as int].1@);
                    let literal = format_value(&entries[i].1, comments, formats, path);
                    item.append(literal.as_str());
                    out.append(item.as_str());
                    proof {
                        assert(literal@ == scalar_text(view[i as int].1));
                        assert(item@ =~= texts[i as int]);
                        if quiet {
                            assert(quiet_scalar(view[i as int].1));
                            lemma_value_marks();
                            lemma_no_feed(toml_key(view[i as int].0));
                            lemma_inner_concat(toml_key(view[i as int].0), " = "@);
                            lemma_inner_concat(toml_key(view[i as int].0) + " = "@, literal@);
                        }
                        lemma_join_step(texts, ", "@, i as int);
                        assert(out@ =~= open + join(texts.take(i + 1), ", "@));
                    }
                    i = i + 1;
                }
                out.append(" }");
                proof {
                    assert(texts.take(entries.len() as int) =~= texts);
                    if quiet {
                        lemma_value_marks();
                        lemma_join_inner(texts, ", "@);
                        lemma_inner_concat("{ "@, join(texts, ", "@));
                        lemma_inner_concat("{ "@ + join(texts, ", "@), " }"@);
                    }
                }
            } else {
                match document_text(value) {
                    Some(document) => {
                        let trimmed = trim_of(document.as_str());
                        out.append(trimmed.as_str());
                        assert(out@ =~= block_text(value@));
                    },
                    None => {
                        assert(out@ =~= block_text(value@));
                    },
                }
            }
        },
    }
    out
}

/// Splits the entries of a table into three buckets, each in the table's
/// order: scalars and plain arrays, nested tables, arrays of tables.
pub fn categorize_table_keys(
    table: &Vec<(String, Datum)>,
) -> (keys: (Vec<usize>, Vec<usize>, Vec<usize>))
    ensures
        keys.0@ == keys_of_kind(entries_view(table@), Kind::Inline, table@.len()),
        keys.1@ == keys_of_kind(entries_view(table@), Kind::Nested, table@.len()),
        keys.2@ == keys_of_kind(entries_view(table@), Kind::ArrayOfTables, table@.len()),
{
    let ghost entries = entries_view(table@);
    let mut inline_keys: Vec<usize> = Vec::new();
    let mut nested_tables: Vec<usize> = Vec::new();
    let mut array_tables: Vec<usize> = Vec::new();
    let mut i: usize = 0;
    while i < table.len()
        invariant
            i <= table.len(),
            entries == entries_view(table@),
            inline_keys@ == keys_of_kind(entries, Kind::Inline, i as nat),
            nested_tables@ == keys_of_kind(entries, Kind::Nested, i as nat),
            array_tables@ == keys_of_kind(entries, Kind::ArrayOfTables, i as nat),
        decreases table.len() - i,
    {
        match &table[i].1 {
            Datum::Table(_) => {
                nested_tables.push(i);
            },
            Datum::Array(items) => {
                proof {
                    lemma_array_view(table@[i as int].1);
                }
                let first_is_table: bool = items.len() > 0 && match &items[0] {
                    Datum::Table(_) => true,
                    _ => false,
                };
                if first_is_table {
                    array_tables.push(i);
                } else {
                    inline_keys.push(i);
                }
            },
            _ => {
                inline_keys.push(i);
            },
        }
        i = i + 1;
    }
    (inline_keys, nested_tables, array_tables)
}

/// Checks whether the table has an entry under `key`.
pub(crate) fn table_has_key(table: &Vec<(String, Datum)>, key: &String) -> (r: bool)
    ensures
        r == has_key(entries_view(table@), key@),
{
    let ghost entries = entries_view(table@);
    let mut i: usize = 0;
    while i < table.len()
        invariant
            i <= table.len(),
            entries == entries_view(table@),
            forall|j: int| 0 <= j < i ==> #[trigger] entries[j].0 != key@,
        decreases table.len() - i,
    {
        if table[i].0 == *key {
            assert(entries[i as int].0 == key@);
            return true;
        }
        i = i + 1;
    }
    false
}

/// Appends the comment of the child `key` of the table at `path` and its
/// line `key = value`, the key encoded.
fn append_key_line(
    result: &mut String,
    key: &str,
    value: &Datum,
    comments: &PathMap,
    formats: &PathMap,
    path: &FieldPath,
)
    ensures
        final(result)@ == key_line(old(result)@, key@, value@, comments@, formats@, path@),
        calm_key(key@),
        quiet_value(value@, comments@, formats@, path@.push(key@)) ==> calm_child(
            key@,
            value@,
            comments@,
            formats@,
            path@,
        ),
{
    let current = path.child(String::from_str(key));
    append_comment(result, comments, &current);
    write_key(result, key);
    result.append(" = ");
    let text = format_value(value, comments, formats, &current);
    result.append(text.as_str());
    result.append("\n");
}

/// Encodes a key as it stands in a document.
pub(crate) fn encoded_key(key: &str) -> (text: String)
    ensures
        text@ == toml_key(key@),
        calm_key(key@),
{
    let mut text = String::new();
    write_key(&mut text, key);
    assert(text@ =~= toml_key(key@));
    text
}

/// Writes a path as it stands in a header: its segments encoded, with a dot
/// between neighbours.
fn encoded_dotted(path: &FieldPath) -> (text: String)
    ensures
        text@ == encoded_path(path@),
        calm_path(path@),
{
    let mut text = String::new();
    let segments: usize = path.len();
    let mut i: usize = 0;
    while i < segments
        invariant
            i <= segments,
            segments == path@.len(),
            text@ == encoded_path(path@.take(i as int)),
            forall|j: int| 0 <= j < i ==> calm_key(#[trigger] path@[j]),
        decreases segments - i,
    {
        if i > 0 {
            push_char(&mut text, '.');
        }
        match path.get(i) {
            Some(segment) => {
                write_key(&mut text, segment.as_str());
            },
            None => {},
        }
        proof {
            let next = path@.take(i + 1);
            assert(next.drop_last() =~= path@.take(i as int));
            assert(next.last() == path@[i as int]);
            if i > 0 {
                assert(text@ =~= encoded_path(next.drop_last()) + seq!['.'] + toml_key(
                    next.last(),
                ));
            } else {
                assert(text@ =~= toml_key(next[0]));
            }
        }
        i = i + 1;
    }
    assert(path@.take(segments as int) =~= path@);
    text
}

/// Appends the comment at `path` and the line `key = value`, where `key` is
/// the key as it is to be written.
fn append_plain_line(
    result: &mut String,
    key: &str,
    value: &Datum,
    comments: &PathMap,
    formats: &PathMap,
    path: &FieldPath,
)
    ensures
        final(result)@ == plain_line(old(result)@, key@, value@, comments@, formats@, path@),
        quiet_value(value@, comments@, formats@, path@) ==> calm_value(
            value@,
            comments@,
            formats@,
            path@,
        ),
{
    append_comment(result, comments, path);
    result.append(key);
    result.append(" = ");
    let text = format_value(value, comments, formats, path);
    result.append(text.as_str());
    result.append("\n");
}

/// Appends one line `prefix.key = value` for each entry of the table, each
/// under its comment.
fn append_dotted_lines(
    result: &mut String,
    prefix: &str,
    table: &Vec<(String, Datum)>,
    comments: &PathMap,
    formats: &PathMap,
    path: &FieldPath,
)
    ensures
        final(result)@ == dotted_lines(
            old(result)@,
            prefix@,
            entries_view(table@),
            table@.len(),
            comments@,
            formats@,
            path@,
        ),
        quiet_children(entries_view(table@), comments@, formats@, path@) ==> calm_children(
            entries_view(table@),
            comments@,
            formats@,
            path@,
        ),
{
    let ghost entries = entries_view(table@);
    let mut i: usize = 0;
    while i < table.len()
        invariant
            i <= table.len(),
            entries == entries_view(table@),
            quiet_children(entries, comments@, formats@, path@) ==> forall|j: int|
                0 <= j < i ==> calm_child(
                    (#[trigger] entries[j]).0,
                    entries[j].1,
                    comments@,
                    formats@,
                    path@,
                ),
            result@ == dotted_lines(
                old(result)@,
                prefix@,
                entries,
                i as nat,
                comments@,
                formats@,
                path@,
            ),
        decreases table.len() - i,
    {
        let subpath = path.child(table[i].0.clone());
        append_comment(result, comments, &subpath);
        result.append(prefix);
        result.append(".");
        write_key(result, table[i].0.as_str());
        result.append(" = ");
        let text = format_value(&table[i].1, comments, formats, &subpath);
        result.append(text.as_str());
        result.append("\n");
        i = i + 1;
    }
}

/// Flattens the table into dotted keys at every depth: a nested table
/// contributes the lines of its entries, anything else one line under its
/// comment. `prefix` is written as it is, every key below it is encoded.
pub fn flatten_dotted(
    result: &mut String,
    prefix: &str,
    table: &Vec<(String, Datum)>,
    comments: &PathMap,
    formats: &PathMap,
    path: &FieldPath,
)
    ensures
        final(result)@ == flatten_text(
            old(result)@,
            prefix@,
            entries_view(table@),
            table@.len(),
            comments@,
            formats@,
            path@,
        ),
        quiet_flat(entries_view(table@), comments@, formats@, path@) ==> calm_flat(
            entries_view(table@),
            comments@,
            formats@,
            path@,
        ),
    decreases entries_view(table@),
{
    let ghost entries = entries_view(table@);
    let mut i: usize = 0;
    while i < table.len()
        invariant
            i <= table.len(),
            entries == entries_view(table@),
            quiet_flat(entries, comments@, formats@, path@) ==> forall|j: int|
                0 <= j < i ==> calm_leaf(
                    (#[trigger] entries[j]).0,
                    entries[j].1,
                    comments@,
                    formats@,
                    path@,
                ),
            result@ == flatten_text(
                old(result)@,
                prefix@,
                entries,
                i as nat,
                comments@,
                formats@,
                path@,
            ),
        decreases table.len() - i,
    {
        let subpath = path.child(table[i].0.clone());
        let mut dotted = String::new();
        dotted.append(prefix);
        dotted.append(".");
        write_key(&mut dotted, table[i].0.as_str());
        assert(dotted@ =~= dotted_key(prefix@, entries[i as int].0));
        assert(quiet_flat(entries, comments@, formats@, path@) ==> quiet_leaf(
            entries[i as int].0,
            entries[i as int].1,
            comments@,
            formats@,
            path@,
        ));
        match &table[i].1 {
            Datum::Table(nested) => {
                proof {
                    lemma_table_view(table@[i as int].1);
                    assert(entries[i as int].1->Table_0 == entries_view(nested@));
                }
                flatten_dotted(result, dotted.as_str(), nested, comments, formats, &subpath);
            },
            _ => {
                append_plain_line(
                    result,
                    dotted.as_str(),
                    &table[i].1,
                    comments,
                    formats,
                    &subpath,
                );
            },
        }
        i = i + 1;
    }
}

/// Appends the children of a section whose children are dotted.
fn append_child_dotted(
    result: &mut String,
    table: &Vec<(String, Datum)>,
    comments: &PathMap,
    formats: &PathMap,
    path: &FieldPath,
)
    ensures
        final(result)@ == child_dotted_text(
            old(result)@,
            entries_view(table@),
            table@.len(),
            comments@,
            formats@,
            path@,
        ),
        quiet_child_dotted(entries_view(table@), comments@, formats@, path@)
            ==> calm_child_dotted(entries_view(table@), comments@, formats@, path@),
{
    let ghost entries = entries_view(table@);
    let mut i: usize = 0;
    while i < table.len()
        invariant
            i <= table.len(),
            entries == entries_view(table@),
            quiet_child_dotted(entries, comments@, formats@, path@) ==> forall|j: int|
                0 <= j < i ==> calm_dotted_child(
                    (#[trigger] entries[j]).0,
                    entries[j].1,
                    comments@,
                    formats@,
                    path@,
                ),
            result@ == child_dotted_text(
                old(result)@,
                entries,
                i as nat,
                comments@,
                formats@,
                path@,
            ),
        decreases table.len() - i,
    {
        let subpath = path.child(table[i].0.clone());
        assert(quiet_child_dotted(entries, comments@, formats@, path@) ==> quiet_dotted_child(
            entries[i as int].0,
            entries[i as int].1,
            comments@,
            formats@,
            path@,
        ));
        match &table[i].1 {
            Datum::Table(nested) => {
                proof {
                    lemma_table_view(table@[i as int].1);
                }
                let name = encoded_key(table[i].0.as_str());
                append_dotted_lines(result, name.as_str(), nested, comments, formats, &subpath);
            },
            _ => {
                append_key_line(
                    result,
                    table[i].0.as_str(),
                    &table[i].1,
                    comments,
                    formats,
                    path,
                );
            },
        }
        i = i + 1;
    }
}

/// Appends the children of a section whose children are flattened.
fn append_child_flat(
    result: &mut String,
    table: &Vec<(String, Datum)>,
    comments: &PathMap,
    formats: &PathMap,
    path: &FieldPath,
)
    ensures
        final(result)@ == child_flat_text(
            old(result)@,
            entries_view(table@),
            table@.len(),
            comments@,
            formats@,
            path@,
        ),
        quiet_flat(entries_view(table@), comments@, formats@, path@) ==> calm_flat(
            entries_view(table@),
            comments@,
            formats@,
            path@,
        ),
{
    let ghost entries = entries_view(table@);
    let mut i: usize = 0;
    while i < table.len()
        invariant
            i <= table.len(),
            entries == entries_view(table@),
            quiet_flat(entries, comments@, formats@, path@) ==> forall|j: int|
                0 <= j < i ==> calm_leaf(
                    (#[trigger] entries[j]).0,
                    entries[j].1,
                    comments@,
                    formats@,
                    path@,
                ),
            result@ == child_flat_text(
                old(result)@,
                entries,
                i as nat,
                comments@,
                formats@,
                path@,
            ),
        decreases table.len() - i,
    {
        let subpath = path.child(table[i].0.clone());
        assert(quiet_flat(entries, comments@, formats@, path@) ==> quiet_leaf(
            entries[i as int].0,
            entries[i as int].1,
            comments@,
            formats@,
            path@,
        ));
        match &table[i].1 {
            Datum::Table(nested) => {
                proof {
                    lemma_table_view(table@[i as int].1);
                    assert(entries[i as int].1->Table_0 == entries_view(nested@));
                }
                let name = encoded_key(table[i].0.as_str());
                flatten_dotted(result, name.as_str(), nested, comments, formats, &subpath);
            },
            _ => {
                append_key_line(
                    result,
                    table[i].0.as_str(),
                    &table[i].1,
                    comments,
                    formats,
                    path,
                );
            },
        }
        i = i + 1;
    }
}

/// Appends the table at `path` as an inline map on one line, under its
/// comment.
fn append_inline_table(
    result: &mut String,
    key: &str,
    table: &Vec<(String, Datum)>,
    comments: &PathMap,
    formats: &PathMap,
    path: &FieldPath,
)
    ensures
        final(result)@ == inline_table_line(
            old(result)@,
            key@,
            entries_view(table@),
            comments@,
            formats@,
            path@,
        ),
        calm_key(key@),
        quiet_children(entries_view(table@), comments@, formats@, path@) ==> calm_children(
            entries_view(table@),
            comments@,
            formats@,
            path@,
        ),
{
    let ghost entries = entries_view(table@);
    let ghost texts = inline_items(entries, comments@, formats@, path@);
    append_comment(result, comments, path);
    write_key(result, key);
    result.append(" = { ");
    let ghost open = result@;
    let mut i: usize = 0;
    proof {
        assert(result@ =~= open + join(texts.take(0), ", "@));
    }
    while i < table.len()
        invariant
            i <= table.len(),
            entries == entries_view(table@),
            texts == inline_items(entries, comments@, formats@, path@),
            result@ == open + join(texts.take(i as int), ", "@),
            calm_key(key@),
            quiet_children(entries, comments@, formats@, path@) ==> forall|j: int|
                0 <= j < i ==> calm_child(
                    (#[trigger] entries[j]).0,
                    entries[j].1,
                    comments@,
                    formats@,
                    path@,
                ),
        decreases table.len() - i,
    {
        if i > 0 {
            result.append(", ");
        }
        let subpath = path.child(table[i].0.clone());
        let mut item = String::new();
        write_key(&mut item, table[i].0.as_str());
        item.append(" = ");
        let text = format_value(&table[i].1, comments, formats, &subpath);
        item.append(text.as_str());
        result.append(item.as_str());
        proof {
            assert(item@ =~= texts[i as int]);
            lemma_join_step(texts, ", "@, i as int);
            assert(result@ =~= open + join(texts.take(i + 1), ", "@));
        }
        i = i + 1;
    }
    result.append(" }\n");
    proof {
        assert(texts.take(table.len() as int) =~= texts);
    }
}

/// Appends a blank line where one is due, the comment at `path` and the
/// header `[path]`.
fn append_section_header(result: &mut String, comments: &PathMap, path: &FieldPath)
    ensures
        final(result)@ == section_header(old(result)@, comments@, path@),
        calm_path(path@),
{
    append_section_separator(result);
    append_comment(result, comments, path);
    result.append("[");
    let dotted = encoded_dotted(path);
    result.append(dotted.as_str());
    result.append("]\n");
}

/// Appends a blank line where one is due, the comment at `path` and the
/// header `[[path]]`.
fn append_array_header(result: &mut String, comments: &PathMap, path: &FieldPath)
    ensures
        final(result)@ == array_header(old(result)@, comments@, path@),
        calm_path(path@),
{
    append_section_separator(result);
    append_comment(result, comments, path);
    result.append("[[");
    let dotted = encoded_dotted(path);
    result.append(dotted.as_str());
    result.append("]]\n");
}

/// Checks whether a directive gives a nested table a section of its own.
fn is_section_directive(directive: Directive) -> (r: bool)
    ensures
        r == is_section(directive),
{
    match directive {
        Directive::Inline => false,
        Directive::Dotted => false,
        Directive::DottedNested => false,
        _ => true,
    }
}

/// Appends the nested table `child` found under `key` in the table at
/// `path`, laid out as the directive at its own path says.
pub fn append_nested_table(
    result: &mut String,
    key: &str,
    child: &Datum,
    comments: &PathMap,
    all_fields: &PathSet,
    optional_fields: &PathSet,
    formats: &PathMap,
    path: &FieldPath,
)
    ensures
        final(result)@ == nested_table_text(
            old(result)@,
            key@,
            child@,
            index_of(comments@, all_fields@, optional_fields@, formats@),
            path@,
        ),
        child@ is Table && quiet_entry(
            key@,
            child@,
            index_of(comments@, all_fields@, optional_fields@, formats@),
            path@,
        ) ==> calm_entry(
            key@,
            child@,
            index_of(comments@, all_fields@, optional_fields@, formats@),
            path@,
        ),
    decreases child@, 1nat,
{
    let ghost index = index_of(comments@, all_fields@, optional_fields@, formats@);
    match child {
        Datum::Table(table) => {
            proof {
                lemma_table_view(*child);
            }
            let here = path.child(String::from_str(key));
            assert(here@.last() == key@);
            match Directive::lookup(formats, &here) {
                Directive::Inline => {
                    append_inline_table(result, key, table, comments, formats, &here);
                },
                Directive::Dotted => {
                    append_comment(result, comments, &here);
                    let name = encoded_key(key);
                    append_dotted_lines(result, name.as_str(), table, comments, formats, &here);
                },
                Directive::DottedNested => {
                    append_comment(result, comments, &here);
                    let name = encoded_key(key);
                    flatten_dotted(result, name.as_str(), table, comments, formats, &here);
                },
                Directive::ChildDotted => {
                    append_section_header(result, comments, &here);
                    assert(calm_key(here@[here@.len() - 1]));
                    append_child_dotted(result, table, comments, formats, &here);
                },
                Directive::ChildDottedNested => {
                    append_section_header(result, comments, &here);
                    assert(calm_key(here@[here@.len() - 1]));
                    append_child_flat(result, table, comments, formats, &here);
                },
                _ => {
                    append_section_header(result, comments, &here);
                    assert(calm_key(here@[here@.len() - 1]));
                    append_table(
                        result,
                        child,
                        comments,
                        all_fields,
                        optional_fields,
                        formats,
                        &here,
                    );
                },
            }
        },
        _ => {},
    }
}

/// Renders the table `value`, which stands at `path`, as a document: the
/// root comment, the `key = value` lines, the placeholders of absent
/// optional fields, the nested tables that are laid out as key lines, the
/// nested tables that get a section, then the arrays of tables. A value that
/// is no table gives an empty document.
///
/// For a quiet value at a calm path the document holds no three line feeds
/// in a row, and every section header in it stands behind exactly one empty
/// line, unless nothing is written before it.
pub fn format_with_comments(
    value: &Datum,
    comments: &PathMap,
    all_fields: &PathSet,
    optional_fields: &PathSet,
    formats: &PathMap,
    path: &FieldPath,
) -> (result: String)
    ensures
        result@ == table_text(
            Seq::empty(),
            value@,
            index_of(comments@, all_fields@, optional_fields@, formats@),
            path@,
        ),
        calm_path(path@) && quiet_table(
            value@,
            index_of(comments@, all_fields@, optional_fields@, formats@),
            path@,
        ) ==> no_triple(result@) && sections_spaced(
            Seq::empty(),
            value@,
            index_of(comments@, all_fields@, optional_fields@, formats@),
            path@,
        ),
{
    let mut result = String::new();
    append_table(&mut result, value, comments, all_fields, optional_fields, formats, path);
    proof {
        let index = index_of(comments@, all_fields@, optional_fields@, formats@);
        if calm_path(path@) && quiet_table(value@, index, path@) {
            law_no_three_line_feeds(Seq::empty(), value@, index, path@);
            law_one_empty_line_before_every_section(value@, index, path@);
        }
    }
    result
}

/// Appends the body of the table `value`, which stands at `path`, to the
/// document written so far. A value that is no table adds nothing.
pub fn append_table(
    result: &mut String,
    value: &Datum,
    comments: &PathMap,
    all_fields: &PathSet,
    optional_fields: &PathSet,
    formats: &PathMap,
    path: &FieldPath,
)
    ensures
        final(result)@ == table_text(
            old(result)@,
            value@,
            index_of(comments@, all_fields@, optional_fields@, formats@),
            path@,
        ),
        quiet_table(
            value@,
            index_of(comments@, all_fields@, optional_fields@, formats@),
            path@,
        ) ==> calm_table(
            value@,
            index_of(comments@, all_fields@, optional_fields@, formats@),
            path@,
        ),
    decreases value@, 0nat,
{
    let ghost index = index_of(comments@, all_fields@, optional_fields@, formats@);
    let ghost begun = old(result)@ + root_comment(index, path@);
    let ghost quiet = quiet_table(value@, index, path@);
    match value {
        Datum::Table(table) => {
            proof {
                lemma_table_view(*value);
            }
            let ghost entries = entries_view(table@);
            if path.len() == 0 {
                let root = FieldPath::new();
                append_comment(result, comments, &root);
                if comments.contains_key(&root) {
                    result.append("\n");
                }
            }
            proof {
                assert(path@.len() == 0 ==> path@ =~= Seq::<Seq<char>>::empty());
                assert(result@ =~= begun);
            }
            let (inline_keys, nested_tables, array_tables) = categorize_table_keys(table);
            proof {
                lemma_keys_of_kind(entries, Kind::Inline, table@.len());
                lemma_keys_of_kind(entries, Kind::Nested, table@.len());
                lemma_keys_of_kind(entries, Kind::ArrayOfTables, table@.len());
            }

            let mut i: usize = 0;
            while i < inline_keys.len()
                invariant
                    i <= inline_keys.len(),
                    entries == entries_view(table@),
                    index == index_of(comments@, all_fields@, optional_fields@, formats@),
                    forall|j: int| 0 <= j < inline_keys.len() ==> inline_keys@[j] < table.len(),
                    forall|j: int|
                        0 <= j < inline_keys.len() ==> kind_of(
                            entries[(#[trigger] inline_keys@[j]) as int].1,
                        ) == Kind::Inline,
                    result@ == inline_keys_text(
                        begun,
                        entries,
                        inline_keys@,
                        i as nat,
                        index,
                        path@,
                    ),
                    quiet == quiet_entries(entries, index, path@),
                    quiet ==> forall|j: int|
                        0 <= j < i ==> calm_entry(
                            entries[(#[trigger] inline_keys@[j]) as int].0,
                            entries[inline_keys@[j] as int].1,
                            index,
                            path@,
                        ),
                decreases inline_keys.len() - i,
            {
                let at: usize = inline_keys[i];
                append_key_line(
                    result,
                    table[at].0.as_str(),
                    &table[at].1,
                    comments,
                    formats,
                    path,
                );
                proof {
                    assert(kind_of(entries[inline_keys@[i as int] as int].1) == Kind::Inline);
                    if quiet {
                        assert(quiet_entry(
                            entries[at as int].0,
                            entries[at as int].1,
                            index,
                            path@,
                        ));
                        assert(calm_entry(
                            entries[at as int].0,
                            entries[at as int].1,
                            index,
                            path@,
                        ));
                    }
                }
                i = i + 1;
            }
            let ghost a1 = result@;

            let known: usize = all_fields.len();
            let mut f: usize = 0;
            while f < known
                invariant
                    f <= known,
                    known == all_fields@.len(),
                    entries == entries_view(table@),
                    index == index_of(comments@, all_fields@, optional_fields@, formats@),
                    result@ == placeholders_text(a1, entries, f as nat, index, path@),
                    forall|j: int|
                        0 <= j < f && absent_optional(
                            #[trigger] index.all_fields[j],
                            entries,
                            index,
                            path@,
                        ) ==> calm_key(index.all_fields[j].last()),
                decreases known - f,
            {
                let field = all_fields.get(f).unwrap();
                let depth: usize = path.len();
                if field.len() > 0 && field.len() - 1 == depth && field.starts_with(path) {
                    let key = field.get(depth).unwrap();
                    if optional_fields.contains(field) && !table_has_key(table, key) {
                        append_comment(result, comments, field);
                        result.append("# ");
                        write_key(result, key.as_str());
                        result.append(" = ...\n");
                        assert(key@ == field@.last());
                    }
                }
                f = f + 1;
            }
            let ghost a2 = result@;

            let mut n: usize = 0;
            while n < nested_tables.len()
                invariant
                    n <= nested_tables.len(),
                    entries == entries_view(table@),
                    value@ == DatumView::Table(entries),
                    index == index_of(comments@, all_fields@, optional_fields@, formats@),
                    forall|j: int| 0 <= j < nested_tables.len() ==> nested_tables@[j] < table.len(),
                    forall|j: int|
                        0 <= j < nested_tables.len() ==> kind_of(
                            entries[(#[trigger] nested_tables@[j]) as int].1,
                        ) == Kind::Nested,
                    result@ == nested_tables_text(
                        a2,
                        entries,
                        nested_tables@,
                        n as nat,
                        false,
                        index,
                        path@,
                    ),
                    quiet == quiet_entries(entries, index, path@),
                    quiet ==> forall|j: int|
                        0 <= j < n && is_section(
                            directive_at(
                                index.formats,
                                path@.push(entries[(#[trigger] nested_tables@[j]) as int].0),
                            ),
                        ) == false ==> calm_entry(
                            entries[nested_tables@[j] as int].0,
                            entries[nested_tables@[j] as int].1,
                            index,
                            path@,
                        ),
                decreases nested_tables.len() - n,
            {
                let at: usize = nested_tables[n];
                assert(entries[at as int].1 == table@[at as int].1@);
                assert(decreases_to!(value@ => value@->Table_0));
                assert(decreases_to!(entries => entries[at as int]));
                assert(decreases_to!(entries[at as int] => entries[at as int].1));
                let here = path.child(table[at].0.clone());
                if !is_section_directive(Directive::lookup(formats, &here)) {
                    append_nested_table(
                        result,
                        table[at].0.as_str(),
                        &table[at].1,
                        comments,
                        all_fields,
                        optional_fields,
                        formats,
                        path,
                    );
                    proof {
                        assert(kind_of(entries[nested_tables@[n as int] as int].1) == Kind::Nested);
                        assert(quiet ==> quiet_entry(
                            entries[at as int].0,
                            entries[at as int].1,
                            index,
                            path@,
                        ));
                    }
                }
                n = n + 1;
            }
            let ghost lined = result@;

            n = 0;
            while n < nested_tables.len()
                invariant
                    n <= nested_tables.len(),
                    entries == entries_view(table@),
                    value@ == DatumView::Table(entries),
                    index == index_of(comments@, all_fields@, optional_fields@, formats@),
                    forall|j: int| 0 <= j < nested_tables.len() ==> nested_tables@[j] < table.len(),
                    forall|j: int|
                        0 <= j < nested_tables.len() ==> kind_of(
                            entries[(#[trigger] nested_tables@[j]) as int].1,
                        ) == Kind::Nested,
                    result@ == nested_tables_text(
                        lined,
                        entries,
                        nested_tables@,
                        n as nat,
                        true,
                        index,
                        path@,
                    ),
                    quiet == quiet_entries(entries, index, path@),
                    quiet ==> forall|j: int|
                        0 <= j < n && is_section(
                            directive_at(
                                index.formats,
                                path@.push(entries[(#[trigger] nested_tables@[j]) as int].0),
                            ),
                        ) == true ==> calm_entry(
                            entries[nested_tables@[j] as int].0,
                            entries[nested_tables@[j] as int].1,
                            index,
                            path@,
                        ),
                decreases nested_tables.len() - n,
            {
                let at: usize = nested_tables[n];
                assert(entries[at as int].1 == table@[at as int].1@);
                assert(decreases_to!(value@ => value@->Table_0));
                assert(decreases_to!(entries => entries[at as int]));
                assert(decreases_to!(entries[at as int] => entries[at as int].1));
                let here = path.child(table[at].0.clone());
                if is_section_directive(Directive::lookup(formats, &here)) {
                    append_nested_table(
                        result,
                        table[at].0.as_str(),
                        &table[at].1,
                        comments,
                        all_fields,
                        optional_fields,
                        formats,
                        path,
                    );
                    proof {
                        assert(kind_of(entries[nested_tables@[n as int] as int].1) == Kind::Nested);
                        assert(quiet ==> quiet_entry(
                            entries[at as int].0,
                            entries[at as int].1,
                            index,
                            path@,
                        ));
                    }
                }
                n = n + 1;
            }
            let ghost a3 = result@;
            proof {
                if quiet {
                    assert forall|j: int| 0 <= j < nested_tables.len() implies calm_entry(
                        entries[(#[trigger] nested_tables@[j]) as int].0,
                        entries[nested_tables@[j] as int].1,
                        index,
                        path@,
                    ) by {
                        let here = path@.push(entries[nested_tables@[j] as int].0);
                        if is_section(directive_at(index.formats, here)) {
                        } else {
                        }
                    }
                }
            }

            let mut a: usize = 0;
            while a < array_tables.len()
                invariant
                    a <= array_tables.len(),
                    entries == entries_view(table@),
                    value@ == DatumView::Table(entries),
                    index == index_of(comments@, all_fields@, optional_fields@, formats@),
                    forall|j: int| 0 <= j < array_tables.len() ==> array_tables@[j] < table.len(),
                    forall|j: int|
                        0 <= j < array_tables.len() ==> kind_of(
                            entries[(#[trigger] array_tables@[j]) as int].1,
                        ) == Kind::ArrayOfTables,
                    result@ == array_tables_text(
                        a3,
                        entries,
                        array_tables@,
                        a as nat,
                        index,
                        path@,
                    ),
                    quiet == quiet_entries(entries, index, path@),
                    quiet ==> forall|j: int|
                        0 <= j < a ==> calm_entry(
                            entries[(#[trigger] array_tables@[j]) as int].0,
                            entries[array_tables@[j] as int].1,
                            index,
                            path@,
                        ),
                decreases array_tables.len() - a,
            {
                let at: usize = array_tables[a];
                let ghost before = result@;
                proof {
                    assert(kind_of(entries[array_tables@[a as int] as int].1)
                        == Kind::ArrayOfTables);
                    assert(quiet ==> quiet_entry(
                        entries[at as int].0,
                        entries[at as int].1,
                        index,
                        path@,
                    ));
                }
                match &table[at].1 {
                    Datum::Array(items) => {
                        proof {
                            lemma_array_view(table@[at as int].1);
                        }
                        let ghost views = items_view(items@);
                        let current = path.child(table[at].0.clone());
                        let mut k: usize = 0;
                        while k < items.len()
                            invariant
                                k <= items.len(),
                                at < table.len(),
                                entries == entries_view(table@),
                                value@ == DatumView::Table(entries),
                                entries[at as int].1 == DatumView::Array(views),
                                views == items_view(items@),
                                index == index_of(
                                    comments@,
                                    all_fields@,
                                    optional_fields@,
                                    formats@,
                                ),
                                result@ == array_items_text(
                                    before,
                                    views,
                                    k as nat,
                                    index,
                                    current@,
                                ),
                                current@ == path@.push(entries[at as int].0),
                                kind_of(entries[at as int].1) == Kind::ArrayOfTables,
                                k > 0 ==> calm_key(entries[at as int].0),
                                quiet_entry(
                                    entries[at as int].0,
                                    entries[at as int].1,
                                    index,
                                    path@,
                                ) ==> forall|m: int|
                                    0 <= m < k ==> calm_table(#[trigger] views[m], index, current@),
                            decreases items.len() - k,
                        {
                            append_array_header(result, comments, &current);
                            assert(calm_key(current@[current@.len() - 1]));
                            assert(views[k as int] == items@[k as int]@);
                            assert(quiet_entry(
                                entries[at as int].0,
                                entries[at as int].1,
                                index,
                                path@,
                            ) ==> quiet_table(views[k as int], index, current@));
                            assert(decreases_to!(value@ => value@->Table_0));
                            assert(decreases_to!(entries => entries[at as int]));
                            assert(decreases_to!(entries[at as int] => entries[at as int].1));
                            let ghost array = entries[at as int].1;
                            assert(decreases_to!(array => array->Array_0));
                            assert(decreases_to!(views => views[k as int]));
                            append_table(
                                result,
                                &items[k],
                                comments,
                                all_fields,
                                optional_fields,
                                formats,
                                &current,
                            );
                            k = k + 1;
                        }
                    },
                    _ => {},
                }
                a = a + 1;
            }
            proof {
                if quiet {
                    let len = entries.len();
                    assert forall|kind: Kind, j: int|
                        0 <= j < keys_of_kind(entries, kind, len).len() implies calm_entry(
                        entries[(#[trigger] keys_of_kind(entries, kind, len)[j]) as int].0,
                        entries[keys_of_kind(entries, kind, len)[j] as int].1,
                        index,
                        path@,
                    ) by {
                        match kind {
                            Kind::Inline => {
                                assert(inline_keys@[j] == keys_of_kind(
                                    entries,
                                    kind,
                                    entries.len(),
                                )[j]);
                            },
                            Kind::Nested => {
                                assert(nested_tables@[j] == keys_of_kind(
                                    entries,
                                    kind,
                                    entries.len(),
                                )[j]);
                            },
                            Kind::ArrayOfTables => {
                                assert(array_tables@[j] == keys_of_kind(
                                    entries,
                                    kind,
                                    entries.len(),
                                )[j]);
                            },
                        }
                    }
                    lemma_all_entries_calm(entries, index, path@);
                }
            }
        },
        _ => {},
    }
}

} // verus!
