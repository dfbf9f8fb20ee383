//! Calm texts: when the texts that the renderer copies into a document can
//! bring no run of line feeds with them, and a test for it.
//!
//! An encoded key, the text of a value, a float literal and the block form
//! of a table come from elsewhere and can hold anything. The predicates here
//! follow the renderer and ask of each such text, where it is written, that
//! it is calm: it neither starts nor ends with a line feed and holds no
//! three in a row. Texts that are not written are not asked about.
//!
//! The quiet predicates ask the same of the values alone, without a look at
//! what the encoders return: a string holds no three line feeds in a row and
//! does not start with two, a float literal is calm, and no table takes the
//! block form. The renderer shows that a quiet document is calm.

use crate::datum::{Datum, DatumView, entries_view, items_view, lemma_array_view, lemma_table_view};
use crate::directive::{Directive, directive_at};
use crate::field_path::FieldPath;
use crate::format::{encoded_key, format_value, table_has_key};
use crate::index::{PathMap, PathSet};
use crate::layout::{
    absent_optional, fits_inline, index_of, keys_of_kind, kind_of, lemma_entry_is_listed,
    value_text, Index, Kind,
};
use crate::text::{chars_of, inner, no_triple, soft, triple_at};
use crate::writer::toml_key;
use vstd::prelude::*;

verus! {

/// Whether a key is calm as `toml_writer` encodes it.
pub open spec fn calm_key(key: Seq<char>) -> bool {
    inner(toml_key(key))
}

/// Whether the text of `value`, written at `path`, is calm.
pub open spec fn calm_value(
    value: DatumView,
    comments: Map<Seq<Seq<char>>, Seq<char>>,
    formats: Map<Seq<Seq<char>>, Seq<char>>,
    path: Seq<Seq<char>>,
) -> bool {
    inner(value_text(value, comments, formats, path))
}

/// Whether every segment of `path` is calm as it stands in a header.
pub open spec fn calm_path(path: Seq<Seq<char>>) -> bool {
    forall|i: int| 0 <= i < path.len() ==> calm_key(#[trigger] path[i])
}

/// Whether the entry `key` of the table at `path` is calm where it is
/// written as `key = value`.
pub open spec fn calm_child(
    key: Seq<char>,
    value: DatumView,
    comments: Map<Seq<Seq<char>>, Seq<char>>,
    formats: Map<Seq<Seq<char>>, Seq<char>>,
    path: Seq<Seq<char>>,
) -> bool {
    calm_key(key) && calm_value(value, comments, formats, path.push(key))
}

/// Whether every entry of the table at `path` is calm where all of them are
/// written as `key = value`: in an inline map or as dotted lines.
pub open spec fn calm_children(
    entries: Seq<(Seq<char>, DatumView)>,
    comments: Map<Seq<Seq<char>>, Seq<char>>,
    formats: Map<Seq<Seq<char>>, Seq<char>>,
    path: Seq<Seq<char>>,
) -> bool {
    forall|i: int|
        0 <= i < entries.len() ==> calm_child(
            (#[trigger] entries[i]).0,
            entries[i].1,
            comments,
            formats,
            path,
        )
}

/// Whether the entry `key` of the table at `path` is calm where the table
/// is flattened: a table below it is flattened in turn, anything else is
/// written as a value.
pub open spec fn calm_leaf(
    key: Seq<char>,
    value: DatumView,
    comments: Map<Seq<Seq<char>>, Seq<char>>,
    formats: Map<Seq<Seq<char>>, Seq<char>>,
    path: Seq<Seq<char>>,
) -> bool
    decreases value,
{
    calm_key(key) && match value {
        DatumView::Table(nested) => calm_flat(nested, comments, formats, path.push(key)),
        _ => calm_value(value, comments, formats, path.push(key)),
    }
}

/// Whether every entry of the table at `path` is calm where the table is
/// flattened at every depth.
pub open spec fn calm_flat(
    entries: Seq<(Seq<char>, DatumView)>,
    comments: Map<Seq<Seq<char>>, Seq<char>>,
    formats: Map<Seq<Seq<char>>, Seq<char>>,
    path: Seq<Seq<char>>,
) -> bool
    decreases entries,
{
    forall|i: int|
        0 <= i < entries.len() ==> calm_leaf(
            (#[trigger] entries[i]).0,
            entries[i].1,
            comments,
            formats,
            path,
        )
}

/// Whether the entry `key` of a section whose children are dotted is calm:
/// the entries of a table below it are written as values, and so is
/// anything else.
pub open spec fn calm_dotted_child(
    key: Seq<char>,
    value: DatumView,
    comments: Map<Seq<Seq<char>>, Seq<char>>,
    formats: Map<Seq<Seq<char>>, Seq<char>>,
    path: Seq<Seq<char>>,
) -> bool {
    calm_key(key) && match value {
        DatumView::Table(nested) => calm_children(nested, comments, formats, path.push(key)),
        _ => calm_value(value, comments, formats, path.push(key)),
    }
}

/// Whether every entry of a section whose children are dotted is calm.
pub open spec fn calm_child_dotted(
    entries: Seq<(Seq<char>, DatumView)>,
    comments: Map<Seq<Seq<char>>, Seq<char>>,
    formats: Map<Seq<Seq<char>>, Seq<char>>,
    path: Seq<Seq<char>>,
) -> bool {
    forall|i: int|
        0 <= i < entries.len() ==> calm_dotted_child(
            (#[trigger] entries[i]).0,
            entries[i].1,
            comments,
            formats,
            path,
        )
}

/// Whether the key of every placeholder that the table at `path` gets is
/// calm.
pub open spec fn calm_placeholders(
    entries: Seq<(Seq<char>, DatumView)>,
    index: Index,
    path: Seq<Seq<char>>,
) -> bool {
    forall|i: int|
        0 <= i < index.all_fields.len() && absent_optional(
            #[trigger] index.all_fields[i],
            entries,
            index,
            path,
        ) ==> calm_key(index.all_fields[i].last())
}

/// Whether the document of the table `value` at `path` copies calm texts
/// only: the keys of its placeholders and what each entry brings. A table
/// has no more entries than a machine can count.
pub open spec fn calm_table(value: DatumView, index: Index, path: Seq<Seq<char>>) -> bool
    decreases value, 0nat,
{
    match value {
        DatumView::Table(entries) => {
            &&& entries.len() <= usize::MAX
            &&& calm_placeholders(entries, index, path)
            &&& calm_entries(entries, index, path)
        },
        _ => true,
    }
}

/// Whether every entry of the table at `path` is calm where the table is
/// rendered as a document.
pub open spec fn calm_entries(
    entries: Seq<(Seq<char>, DatumView)>,
    index: Index,
    path: Seq<Seq<char>>,
) -> bool
    decreases entries, 0nat,
{
    forall|i: int|
        0 <= i < entries.len() ==> calm_entry((#[trigger] entries[i]).0, entries[i].1, index, path)
}

/// Whether the entry `key` of the table at `path` is calm where the table
/// is rendered as a document: its key, and below it what its bucket and its
/// directive have written.
pub open spec fn calm_entry(
    key: Seq<char>,
    value: DatumView,
    index: Index,
    path: Seq<Seq<char>>,
) -> bool
    decreases value, 1nat,
{
    let here = path.push(key);
    calm_key(key) && match value {
        DatumView::Table(entries) => match directive_at(index.formats, here) {
            Directive::Inline => calm_children(entries, index.comments, index.formats, here),
            Directive::Dotted => calm_children(entries, index.comments, index.formats, here),
            Directive::DottedNested => calm_flat(entries, index.comments, index.formats, here),
            Directive::ChildDotted => calm_child_dotted(
                entries,
                index.comments,
                index.formats,
                here,
            ),
            Directive::ChildDottedNested => calm_flat(
                entries,
                index.comments,
                index.formats,
                here,
            ),
            _ => calm_table(value, index, here),
        },
        DatumView::Array(items) => if kind_of(value) is ArrayOfTables {
            forall|j: int| 0 <= j < items.len() ==> calm_table(#[trigger] items[j], index, here)
        } else {
            calm_value(value, index.comments, index.formats, here)
        },
        _ => calm_value(value, index.comments, index.formats, here),
    }
}

/// Whether a scalar brings no run of line feeds with it: a string holds no
/// three in a row and does not start with two, a float literal is calm.
pub open spec fn quiet_scalar(value: DatumView) -> bool {
    match value {
        DatumView::String(text) => soft(text),
        DatumView::Float(literal) => inner(literal),
        _ => true,
    }
}

/// Whether `value`, written at `path`, brings no run of line feeds with it,
/// told from the value alone: its scalars are quiet, and no table in it
/// takes the block form.
pub open spec fn quiet_value(
    value: DatumView,
    comments: Map<Seq<Seq<char>>, Seq<char>>,
    formats: Map<Seq<Seq<char>>, Seq<char>>,
    path: Seq<Seq<char>>,
) -> bool
    decreases value,
{
    match value {
        DatumView::Array(items) => forall|i: int|
            0 <= i < items.len() ==> quiet_value(#[trigger] items[i], comments, formats, path),
        DatumView::Table(entries) => fits_inline(entries, comments, path) && forall|i: int|
            0 <= i < entries.len() ==> quiet_scalar((#[trigger] entries[i]).1),
        _ => quiet_scalar(value),
    }
}

/// Whether every entry of the table at `path`, written as `key = value`,
/// is quiet.
pub open spec fn quiet_children(
    entries: Seq<(Seq<char>, DatumView)>,
    comments: Map<Seq<Seq<char>>, Seq<char>>,
    formats: Map<Seq<Seq<char>>, Seq<char>>,
    path: Seq<Seq<char>>,
) -> bool {
    forall|i: int|
        0 <= i < entries.len() ==> quiet_value(
            (#[trigger] entries[i]).1,
            comments,
            formats,
            path.push(entries[i].0),
        )
}

/// Whether the entry `key` of a flattened table is quiet: a table below it
/// is flattened in turn, anything else is written as a value.
pub open spec fn quiet_leaf(
    key: Seq<char>,
    value: DatumView,
    comments: Map<Seq<Seq<char>>, Seq<char>>,
    formats: Map<Seq<Seq<char>>, Seq<char>>,
    path: Seq<Seq<char>>,
) -> bool
    decreases value,
{
    match value {
        DatumView::Table(nested) => quiet_flat(nested, comments, formats, path.push(key)),
        _ => quiet_value(value, comments, formats, path.push(key)),
    }
}

/// Whether every entry of a flattened table is quiet.
pub open spec fn quiet_flat(
    entries: Seq<(Seq<char>, DatumView)>,
    comments: Map<Seq<Seq<char>>, Seq<char>>,
    formats: Map<Seq<Seq<char>>, Seq<char>>,
    path: Seq<Seq<char>>,
) -> bool
    decreases entries,
{
    forall|i: int|
        0 <= i < entries.len() ==> quiet_leaf(
            (#[trigger] entries[i]).0,
            entries[i].1,
            comments,
            formats,
            path,
        )
}

/// Whether the entry `key` of a section whose children are dotted is quiet.
pub open spec fn quiet_dotted_child(
    key: Seq<char>,
    value: DatumView,
    comments: Map<Seq<Seq<char>>, Seq<char>>,
    formats: Map<Seq<Seq<char>>, Seq<char>>,
    path: Seq<Seq<char>>,
) -> bool {
    match value {
        DatumView::Table(nested) => quiet_children(nested, comments, formats, path.push(key)),
        _ => quiet_value(value, comments, formats, path.push(key)),
    }
}

/// Whether every entry of a section whose children are dotted is quiet.
pub open spec fn quiet_child_dotted(
    entries: Seq<(Seq<char>, DatumView)>,
    comments: Map<Seq<Seq<char>>, Seq<char>>,
    formats: Map<Seq<Seq<char>>, Seq<char>>,
    path: Seq<Seq<char>>,
) -> bool {
    forall|i: int|
        0 <= i < entries.len() ==> quiet_dotted_child(
            (#[trigger] entries[i]).0,
            entries[i].1,
            comments,
            formats,
            path,
        )
}

/// Whether the table `value`, rendered as a document at `path`, brings no
/// run of line feeds with it, told from the value alone: every string that
/// is written holds no three line feeds in a row and does not start with
/// two, every float literal that is written is calm, and no table takes the
/// block form.
pub open spec fn quiet_table(value: DatumView, index: Index, path: Seq<Seq<char>>) -> bool
    decreases value, 0nat,
{
    match value {
        DatumView::Table(entries) => quiet_entries(entries, index, path),
        _ => true,
    }
}

/// Whether every entry of the table at `path`, rendered as a document, is
/// quiet.
pub open spec fn quiet_entries(
    entries: Seq<(Seq<char>, DatumView)>,
    index: Index,
    path: Seq<Seq<char>>,
) -> bool
    decreases entries, 0nat,
{
    forall|i: int|
        0 <= i < entries.len() ==> quiet_entry((#[trigger] entries[i]).0, entries[i].1, index, path)
}

/// Whether the entry `key` of the table at `path`, rendered as a document,
/// is quiet in what its bucket and its directive have written.
pub open spec fn quiet_entry(
    key: Seq<char>,
    value: DatumView,
    index: Index,
    path: Seq<Seq<char>>,
) -> bool
    decreases value, 1nat,
{
    let here = path.push(key);
    match value {
        DatumView::Table(entries) => match directive_at(index.formats, here) {
            Directive::Inline => quiet_children(entries, index.comments, index.formats, here),
            Directive::Dotted => quiet_children(entries, index.comments, index.formats, here),
            Directive::DottedNested => quiet_flat(entries, index.comments, index.formats, here),
            Directive::ChildDotted => quiet_child_dotted(
                entries,
                index.comments,
                index.formats,
                here,
            ),
            Directive::ChildDottedNested => quiet_flat(
                entries,
                index.comments,
                index.formats,
                here,
            ),
            _ => quiet_table(value, index, here),
        },
        DatumView::Array(items) => if kind_of(value) is ArrayOfTables {
            forall|j: int| 0 <= j < items.len() ==> quiet_table(#[trigger] items[j], index, here)
        } else {
            quiet_value(value, index.comments, index.formats, here)
        },
        _ => quiet_value(value, index.comments, index.formats, here),
    }
}

/// Where every listed entry of each bucket is calm, every entry is.
pub proof fn lemma_all_entries_calm(
    entries: Seq<(Seq<char>, DatumView)>,
    index: Index,
    path: Seq<Seq<char>>,
)
    requires
        entries.len() <= usize::MAX,
        forall|kind: Kind, j: int|
            0 <= j < keys_of_kind(entries, kind, entries.len()).len() ==> calm_entry(
                entries[(#[trigger] keys_of_kind(entries, kind, entries.len())[j]) as int].0,
                entries[keys_of_kind(entries, kind, entries.len())[j] as int].1,
                index,
                path,
            ),
    ensures
        calm_entries(entries, index, path),
{
    assert forall|i: int| 0 <= i < entries.len() implies calm_entry(
        (#[trigger] entries[i]).0,
        entries[i].1,
        index,
        path,
    ) by {
        lemma_entry_is_listed(entries, i, entries.len());
        let keys = keys_of_kind(entries, kind_of(entries[i].1), entries.len());
        let j = choose|j: int| 0 <= j < keys.len() && keys[j] == i as usize;
        assert(keys[j] as int == i);
    }
}

/// Checks whether a text is calm: it holds no three line feeds in a row and
/// neither starts nor ends with one.
pub fn is_inner(text: &str) -> (r: bool)
    ensures
        r == inner(text@),
{
    let chars = chars_of(text);
    let n: usize = chars.len();
    if n == 0 {
        assert forall|k: int| !#[trigger] triple_at(chars@, k) by {}
        return true;
    }
    if chars[0] == '\n' || chars[n - 1] == '\n' {
        return false;
    }
    let mut i: usize = 0;
    while n - i > 2
        invariant
            n == chars.len(),
            chars@ == text@,
            n > 0,
            i <= n,
            chars@[0] != '\n',
            chars@[n - 1] != '\n',
            forall|k: int| 0 <= k < i ==> !#[trigger] triple_at(chars@, k),
        decreases n - i,
    {
        if chars[i] == '\n' && chars[i + 1] == '\n' && chars[i + 2] == '\n' {
            assert(triple_at(chars@, i as int));
            return false;
        }
        i = i + 1;
    }
    assert forall|k: int| !#[trigger] triple_at(chars@, k) by {}
    true
}

/// Checks whether a key is calm as it is encoded.
fn key_is_calm(key: &str) -> (r: bool)
    ensures
        r == calm_key(key@),
{
    let text = encoded_key(key);
    is_inner(text.as_str())
}

/// Checks whether the text of `value`, written at `path`, is calm.
fn value_is_calm(value: &Datum, comments: &PathMap, formats: &PathMap, path: &FieldPath) -> (r:
    bool)
    ensures
        r == calm_value(value@, comments@, formats@, path@),
{
    let text = format_value(value, comments, formats, path);
    is_inner(text.as_str())
}

/// Checks whether every segment of `path` is calm as it stands in a header.
fn path_is_calm(path: &FieldPath) -> (r: bool)
    ensures
        r == calm_path(path@),
{
    let segments: usize = path.len();
    let mut i: usize = 0;
    while i < segments
        invariant
            i <= segments,
            segments == path@.len(),
            forall|j: int| 0 <= j < i ==> calm_key(#[trigger] path@[j]),
        decreases segments - i,
    {
        match path.get(i) {
            Some(segment) => {
                if !key_is_calm(segment.as_str()) {
                    assert(!calm_key(path@[i as int]));
                    return false;
                }
            },
            None => {},
        }
        i = i + 1;
    }
    true
}

/// Checks the entry `key` of the table at `path` where it is written as
/// `key = value`.
fn child_is_calm(
    key: &String,
    value: &Datum,
    comments: &PathMap,
    formats: &PathMap,
    path: &FieldPath,
) -> (r: bool)
    ensures
        r == calm_child(key@, value@, comments@, formats@, path@),
{
    let here = path.child(key.clone());
    key_is_calm(key.as_str()) && value_is_calm(value, comments, formats, &here)
}

/// Checks the entries of the table at `path` where all of them are written
/// as `key = value`.
fn children_are_calm(
    table: &Vec<(String, Datum)>,
    comments: &PathMap,
    formats: &PathMap,
    path: &FieldPath,
) -> (r: bool)
    ensures
        r == calm_children(entries_view(table@), comments@, formats@, path@),
{
    let ghost entries = entries_view(table@);
    let mut i: usize = 0;
    while i < table.len()
        invariant
            i <= table.len(),
            entries == entries_view(table@),
            forall|j: int|
                0 <= j < i ==> calm_child(
                    (#[trigger] entries[j]).0,
                    entries[j].1,
                    comments@,
                    formats@,
                    path@,
                ),
        decreases table.len() - i,
    {
        if !child_is_calm(&table[i].0, &table[i].1, comments, formats, path) {
            assert(!calm_child(
                entries[i as int].0,
                entries[i as int].1,
                comments@,
                formats@,
                path@,
            ));
            return false;
        }
        i = i + 1;
    }
    true
}

/// Checks the entries of the table at `path` where the table is flattened
/// at every depth.
fn flat_is_calm(
    table: &Vec<(String, Datum)>,
    comments: &PathMap,
    formats: &PathMap,
    path: &FieldPath,
) -> (r: bool)
    ensures
        r == calm_flat(entries_view(table@), comments@, formats@, path@),
    decreases entries_view(table@),
{
    let ghost entries = entries_view(table@);
    let mut i: usize = 0;
    while i < table.len()
        invariant
            i <= table.len(),
            entries == entries_view(table@),
            forall|j: int|
                0 <= j < i ==> calm_leaf(
                    (#[trigger] entries[j]).0,
                    entries[j].1,
                    comments@,
                    formats@,
                    path@,
                ),
        decreases table.len() - i,
    {
        let here = path.child(table[i].0.clone());
        let below: bool = match &table[i].1 {
            Datum::Table(nested) => {
                proof {
                    lemma_table_view(table@[i as int].1);
                    assert(entries[i as int].1->Table_0 == entries_view(nested@));
                }
                flat_is_calm(nested, comments, formats, &here)
            },
            _ => value_is_calm(&table[i].1, comments, formats, &here),
        };
        if !(key_is_calm(table[i].0.as_str()) && below) {
            assert(!calm_leaf(
                entries[i as int].0,
                entries[i as int].1,
                comments@,
                formats@,
                path@,
            ));
            return false;
        }
        assert(calm_leaf(entries[i as int].0, entries[i as int].1, comments@, formats@, path@));
        i = i + 1;
    }
    true
}

/// Checks the entries of a section whose children are dotted.
fn child_dotted_is_calm(
    table: &Vec<(String, Datum)>,
    comments: &PathMap,
    formats: &PathMap,
    path: &FieldPath,
) -> (r: bool)
    ensures
        r == calm_child_dotted(entries_view(table@), comments@, formats@, path@),
{
    let ghost entries = entries_view(table@);
    let mut i: usize = 0;
    while i < table.len()
        invariant
            i <= table.len(),
            entries == entries_view(table@),
            forall|j: int|
                0 <= j < i ==> calm_dotted_child(
                    (#[trigger] entries[j]).0,
                    entries[j].1,
                    comments@,
                    formats@,
                    path@,
                ),
        decreases table.len() - i,
    {
        let here = path.child(table[i].0.clone());
        let below: bool = match &table[i].1 {
            Datum::Table(nested) => {
                proof {
                    lemma_table_view(table@[i as int].1);
                }
                children_are_calm(nested, comments, formats, &here)
            },
            _ => value_is_calm(&table[i].1, comments, formats, &here),
        };
        if !(key_is_calm(table[i].0.as_str()) && below) {
            assert(!calm_dotted_child(
                entries[i as int].0,
                entries[i as int].1,
                comments@,
                formats@,
                path@,
            ));
            return false;
        }
        i = i + 1;
    }
    true
}

/// Checks the keys of the placeholders that the table at `path` gets.
fn placeholders_are_calm(
    table: &Vec<(String, Datum)>,
    comments: &PathMap,
    all_fields: &PathSet,
    optional_fields: &PathSet,
    formats: &PathMap,
    path: &FieldPath,
) -> (r: bool)
    ensures
        r == calm_placeholders(
            entries_view(table@),
            index_of(comments@, all_fields@, optional_fields@, formats@),
            path@,
        ),
{
    let ghost entries = entries_view(table@);
    let ghost index = index_of(comments@, all_fields@, optional_fields@, formats@);
    let known: usize = all_fields.len();
    let depth: usize = path.len();
    let mut f: usize = 0;
    while f < known
        invariant
            f <= known,
            known == all_fields@.len(),
            depth == path@.len(),
            entries == entries_view(table@),
            index == index_of(comments@, all_fields@, optional_fields@, formats@),
            forall|j: int|
                0 <= j < f && absent_optional(#[trigger] index.all_fields[j], entries, index, path@)
                    ==> calm_key(index.all_fields[j].last()),
        decreases known - f,
    {
        let field = all_fields.get(f).unwrap();
        if field.len() > 0 && field.len() - 1 == depth && field.starts_with(path) {
            let key = field.get(depth).unwrap();
            assert(key@ == field@.last());
            if optional_fields.contains(field) && !table_has_key(table, key) {
                if !key_is_calm(key.as_str()) {
                    assert(absent_optional(index.all_fields[f as int], entries, index, path@));
                    return false;
                }
            }
        }
        f = f + 1;
    }
    true
}

/// Checks whether the document of the table `value` at `path` copies calm
/// texts only.
pub fn table_is_calm(
    value: &Datum,
    comments: &PathMap,
    all_fields: &PathSet,
    optional_fields: &PathSet,
    formats: &PathMap,
    path: &FieldPath,
) -> (r: bool)
    ensures
        r == calm_table(
            value@,
            index_of(comments@, all_fields@, optional_fields@, formats@),
            path@,
        ),
    decreases value@, 0nat,
{
    let ghost index = index_of(comments@, all_fields@, optional_fields@, formats@);
    match value {
        Datum::Table(table) => {
            proof {
                lemma_table_view(*value);
            }
            let ghost entries = entries_view(table@);
            if !placeholders_are_calm(table, comments, all_fields, optional_fields, formats, path) {
                return false;
            }
            let mut i: usize = 0;
            while i < table.len()
                invariant
                    i <= table.len(),
                    entries == entries_view(table@),
                    value@ == DatumView::Table(entries),
                    index == index_of(comments@, all_fields@, optional_fields@, formats@),
                    forall|j: int|
                        0 <= j < i ==> calm_entry(
                            (#[trigger] entries[j]).0,
                            entries[j].1,
                            index,
                            path@,
                        ),
                decreases table.len() - i,
            {
                assert(entries[i as int].1 == table@[i as int].1@);
                assert(decreases_to!(value@ => value@->Table_0));
                assert(decreases_to!(entries => entries[i as int]));
                assert(decreases_to!(entries[i as int] => entries[i as int].1));
                if !entry_is_calm(
                    &table[i].0,
                    &table[i].1,
                    comments,
                    all_fields,
                    optional_fields,
                    formats,
                    path,
                ) {
                    assert(!calm_entry(entries[i as int].0, entries[i as int].1, index, path@));
                    return false;
                }
                i = i + 1;
            }
            assert(calm_entries(entries, index, path@));
            true
        },
        _ => true,
    }
}

/// Checks the entry `key` of the table at `path` where the table is
/// rendered as a document.
fn entry_is_calm(
    key: &String,
    value: &Datum,
    comments: &PathMap,
    all_fields: &PathSet,
    optional_fields: &PathSet,
    formats: &PathMap,
    path: &FieldPath,
) -> (r: bool)
    ensures
        r == calm_entry(
            key@,
            value@,
            index_of(comments@, all_fields@, optional_fields@, formats@),
            path@,
        ),
    decreases value@, 1nat,
{
    let ghost index = index_of(comments@, all_fields@, optional_fields@, formats@);
    if !key_is_calm(key.as_str()) {
        return false;
    }
    let here = path.child(key.clone());
    match value {
        Datum::Table(table) => {
            proof {
                lemma_table_view(*value);
            }
            match Directive::lookup(formats, &here) {
                Directive::Inline => children_are_calm(table, comments, formats, &here),
                Directive::Dotted => children_are_calm(table, comments, formats, &here),
                Directive::DottedNested => flat_is_calm(table, comments, formats, &here),
                Directive::ChildDotted => child_dotted_is_calm(table, comments, formats, &here),
                Directive::ChildDottedNested => flat_is_calm(table, comments, formats, &here),
                _ => table_is_calm(value, comments, all_fields, optional_fields, formats, &here),
            }
        },
        Datum::Array(items) => {
            proof {
                lemma_array_view(*value);
            }
            let ghost views = items_view(items@);
            let of_tables: bool = items.len() > 0 && match &items[0] {
                Datum::Table(_) => true,
                _ => false,
            };
            if of_tables {
                let mut j: usize = 0;
                while j < items.len()
                    invariant
                        j <= items.len(),
                        views == items_view(items@),
                        value@ == DatumView::Array(views),
                        kind_of(value@) is ArrayOfTables,
                        calm_key(key@),
                        here@ == path@.push(key@),
                        index == index_of(comments@, all_fields@, optional_fields@, formats@),
                        forall|k: int|
                            0 <= k < j ==> calm_table(#[trigger] views[k], index, here@),
                    decreases items.len() - j,
                {
                    assert(views[j as int] == items@[j as int]@);
                    assert(decreases_to!(value@ => value@->Array_0));
                    assert(decreases_to!(views => views[j as int]));
                    if !table_is_calm(
                        &items[j],
                        comments,
                        all_fields,
                        optional_fields,
                        formats,
                        &here,
                    ) {
                        assert(!calm_table(views[j as int], index, here@));
                        return false;
                    }
                    j = j + 1;
                }
                true
            } else {
                value_is_calm(value, comments, formats, &here)
            }
        },
        _ => value_is_calm(value, comments, formats, &here),
    }
}

/// Checks whether the document of `value` at `path` copies calm texts only,
/// the segments of `path` included. Where it does, the document holds no
/// three line feeds in a row.
pub fn is_calm(
    value: &Datum,
    comments: &PathMap,
    all_fields: &PathSet,
    optional_fields: &PathSet,
    formats: &PathMap,
    path: &FieldPath,
) -> (r: bool)
    ensures
        r == (calm_path(path@) && calm_table(
            value@,
            index_of(comments@, all_fields@, optional_fields@, formats@),
            path@,
        )),
        r ==> no_triple(
            crate::layout::table_text(
                Seq::empty(),
                value@,
                index_of(comments@, all_fields@, optional_fields@, formats@),
                path@,
            ),
        ),
{
    let r = path_is_calm(path) && table_is_calm(
        value,
        comments,
        all_fields,
        optional_fields,
        formats,
        path,
    );
    proof {
        if r {
            crate::spacing::law_no_three_line_feeds(
                Seq::empty(),
                value@,
                index_of(comments@, all_fields@, optional_fields@, formats@),
                path@,
            );
        }
    }
    r
}

} // verus!
