//! What the rendered document is: the layout rules as functions from a value
//! and its index to text.
//!
//! Every function here that takes `acc` returns `acc` followed by what it
//! lays out, so that a rule which looks at the text written so far (the blank
//! line before a section) can be stated.

use crate::comment::with_comment;
use crate::datum::{DatumView, scalar};
use crate::directive::{Directive, directive_at};
use crate::text::{join, trim};
use crate::writer::{boolean_text, integer_text, string_text, toml_document, toml_key};
use vstd::prelude::*;

verus! {

/// The metadata that a document is rendered with.
pub struct Index {
    /// Comment text by path.
    pub comments: Map<Seq<Seq<char>>, Seq<char>>,
    /// Every known path, in the order of first registration.
    pub all_fields: Seq<Seq<Seq<char>>>,
    /// The known paths that are optional, in the order of first registration.
    pub optional_fields: Seq<Seq<Seq<char>>>,
    /// Directive tag by path.
    pub formats: Map<Seq<Seq<char>>, Seq<char>>,
}

/// The bucket that a table entry is rendered in.
#[derive(Debug, Clone, Copy, PartialEq, Eq)]
pub enum Kind {
    /// A scalar or a plain array: rendered as `key = value`.
    Inline,
    /// A table: rendered as a section, or as its directive says.
    Nested,
    /// A non-empty array whose first element is a table: rendered as a
    /// sequence of `[[section]]` blocks.
    ArrayOfTables,
}

/// The bucket of a value.
pub open spec fn kind_of(value: DatumView) -> Kind {
    match value {
        DatumView::Table(_) => Kind::Nested,
        DatumView::Array(items) => if items.len() > 0 && items[0] is Table {
            Kind::ArrayOfTables
        } else {
            Kind::Inline
        },
        _ => Kind::Inline,
    }
}

/// The positions among the first `n` entries that fall into `kind`, in
/// increasing order.
pub open spec fn keys_of_kind(
    entries: Seq<(Seq<char>, DatumView)>,
    kind: Kind,
    n: nat,
) -> Seq<usize>
    decreases n,
{
    if n == 0 {
        Seq::empty()
    } else {
        let before = keys_of_kind(entries, kind, (n - 1) as nat);
        if n <= entries.len() && kind_of(entries[n - 1].1) == kind {
            before.push((n - 1) as usize)
        } else {
            before
        }
    }
}

/// The listed positions lie among the first `n` entries, and the entry at
/// each of them falls into `kind`.
pub proof fn lemma_keys_of_kind(entries: Seq<(Seq<char>, DatumView)>, kind: Kind, n: nat)
    requires
        n <= entries.len(),
        n <= usize::MAX,
    ensures
        keys_of_kind(entries, kind, n).len() <= n,
        forall|j: int|
            0 <= j < keys_of_kind(entries, kind, n).len() ==> {
                &&& (#[trigger] keys_of_kind(entries, kind, n)[j]) < n
                &&& kind_of(entries[keys_of_kind(entries, kind, n)[j] as int].1) == kind
            },
    decreases n,
{
    if n > 0 {
        lemma_keys_of_kind(entries, kind, (n - 1) as nat);
        let before = keys_of_kind(entries, kind, (n - 1) as nat);
        let keys = keys_of_kind(entries, kind, n);
        assert forall|j: int| 0 <= j < keys.len() implies {
            &&& (#[trigger] keys[j]) < n
            &&& kind_of(entries[keys[j] as int].1) == kind
        } by {
            if j < before.len() {
                assert(keys[j] == before[j]);
            }
        }
    }
}

/// Every entry is listed in the bucket of its kind.
pub proof fn lemma_entry_is_listed(entries: Seq<(Seq<char>, DatumView)>, i: int, n: nat)
    requires
        0 <= i < n <= entries.len(),
        n <= usize::MAX,
    ensures
        keys_of_kind(entries, kind_of(entries[i].1), n).contains(i as usize),
    decreases n,
{
    let kind = kind_of(entries[i].1);
    let keys = keys_of_kind(entries, kind, n);
    let before = keys_of_kind(entries, kind, (n - 1) as nat);
    if n - 1 == i {
        assert(keys == before.push(i as usize));
        assert(keys[keys.len() - 1] == i as usize);
    } else {
        lemma_entry_is_listed(entries, i, (n - 1) as nat);
        let j = choose|j: int| 0 <= j < before.len() && before[j] == i as usize;
        assert(keys[j] == i as usize);
    }
}

/// The index made of its four parts.
pub open spec fn index_of(
    comments: Map<Seq<Seq<char>>, Seq<char>>,
    all_fields: Seq<Seq<Seq<char>>>,
    optional_fields: Seq<Seq<Seq<char>>>,
    formats: Map<Seq<Seq<char>>, Seq<char>>,
) -> Index {
    Index { comments, all_fields, optional_fields, formats }
}

/// Whether some entry has the key `key`.
pub open spec fn has_key(entries: Seq<(Seq<char>, DatumView)>, key: Seq<char>) -> bool {
    exists|i: int| 0 <= i < entries.len() && #[trigger] entries[i].0 == key
}

/// Whether `acc` ends with an empty line.
pub open spec fn ends_with_blank_line(acc: Seq<char>) -> bool {
    seq!['\n', '\n'].is_suffix_of(acc)
}

/// `acc` made ready for a section header: a line feed is added unless `acc`
/// is empty or already ends with an empty line.
pub open spec fn separated(acc: Seq<char>) -> Seq<char> {
    if acc.len() > 0 && !ends_with_blank_line(acc) {
        acc + "\n"@
    } else {
        acc
    }
}

/// The literal of a scalar; empty for a table or an array.
pub open spec fn scalar_text(value: DatumView) -> Seq<char> {
    match value {
        DatumView::String(text) => string_text(text),
        DatumView::Integer(i) => integer_text(i),
        DatumView::Float(literal) => literal,
        DatumView::Boolean(b) => boolean_text(b),
        _ => Seq::empty(),
    }
}

/// Whether every element of an array is a scalar.
pub open spec fn scalars_only(items: Seq<DatumView>) -> bool {
    forall|i: int| 0 <= i < items.len() ==> scalar(#[trigger] items[i])
}

/// Whether an array at a path with `directive` is written one element per
/// line: the directive is `Multiline`, the array has elements, and all of
/// them are scalars.
pub open spec fn one_per_line(items: Seq<DatumView>, directive: Directive) -> bool {
    directive is Multiline && items.len() > 0 && scalars_only(items)
}

/// An array from the texts of its elements: one element per line, each with
/// a trailing comma, or all on one line.
pub open spec fn array_text(texts: Seq<Seq<char>>, per_line: bool) -> Seq<char> {
    if per_line {
        "[\n  "@ + join(texts, ",\n  "@) + ",\n]"@
    } else {
        "["@ + join(texts, ", "@) + "]"@
    }
}

/// Whether a direct child of the table at `path` has a comment.
pub open spec fn has_commented_child(
    entries: Seq<(Seq<char>, DatumView)>,
    comments: Map<Seq<Seq<char>>, Seq<char>>,
    path: Seq<Seq<char>>,
) -> bool {
    exists|i: int|
        0 <= i < entries.len() && comments.contains_key(#[trigger] path.push(entries[i].0))
}

/// Whether every value of the table is a scalar.
pub open spec fn all_scalar(entries: Seq<(Seq<char>, DatumView)>) -> bool {
    forall|i: int| 0 <= i < entries.len() ==> scalar(#[trigger] entries[i].1)
}

/// Whether a table that stands as a value is written as an inline map: it
/// has fewer than five entries, all of them scalars, none with a comment.
pub open spec fn fits_inline(
    entries: Seq<(Seq<char>, DatumView)>,
    comments: Map<Seq<Seq<char>>, Seq<char>>,
    path: Seq<Seq<char>>,
) -> bool {
    entries.len() < 5 && all_scalar(entries) && !has_commented_child(entries, comments, path)
}

/// The path as it stands in a header: its segments, each as `toml_writer`
/// encodes a key, with a dot between neighbours.
pub open spec fn encoded_path(path: Seq<Seq<char>>) -> Seq<char>
    decreases path.len(),
{
    if path.len() == 0 {
        Seq::empty()
    } else if path.len() == 1 {
        toml_key(path[0])
    } else {
        encoded_path(path.drop_last()) + seq!['.'] + toml_key(path.last())
    }
}

/// The `key = value` items of a table of scalars, each key encoded.
pub open spec fn scalar_items(entries: Seq<(Seq<char>, DatumView)>) -> Seq<Seq<char>> {
    Seq::new(
        entries.len(),
        |i: int| toml_key(entries[i].0) + " = "@ + scalar_text(entries[i].1),
    )
}

/// The generic block form of a value: what `toml::to_string` gives for it,
/// trimmed; empty where it gives nothing.
pub open spec fn block_text(value: DatumView) -> Seq<char> {
    match toml_document(value) {
        Some(text) => trim(text),
        None => Seq::empty(),
    }
}

/// The text of a value where it stands behind `key = `, in an array or in an
/// inline map.
pub open spec fn value_text(
    value: DatumView,
    comments: Map<Seq<Seq<char>>, Seq<char>>,
    formats: Map<Seq<Seq<char>>, Seq<char>>,
    path: Seq<Seq<char>>,
) -> Seq<char>
    decreases value,
{
    match value {
        DatumView::Array(items) => array_text(
            item_texts(items, comments, formats, path),
            one_per_line(items, directive_at(formats, path)),
        ),
        DatumView::Table(entries) => if fits_inline(entries, comments, path) {
            "{ "@ + join(scalar_items(entries), ", "@) + " }"@
        } else {
            block_text(value)
        },
        _ => scalar_text(value),
    }
}

/// The texts of the elements of an array, all at the array's own path.
pub open spec fn item_texts(
    items: Seq<DatumView>,
    comments: Map<Seq<Seq<char>>, Seq<char>>,
    formats: Map<Seq<Seq<char>>, Seq<char>>,
    path: Seq<Seq<char>>,
) -> Seq<Seq<char>>
    decreases items,
{
    Seq::new(
        items.len(),
        |i: int|
            if 0 <= i < items.len() {
                value_text(items[i], comments, formats, path)
            } else {
                Seq::empty()
            },
    )
}

/// `acc` followed by the comment of the child `key` and its `key = value`
/// line.
pub open spec fn key_line(
    acc: Seq<char>,
    key: Seq<char>,
    value: DatumView,
    comments: Map<Seq<Seq<char>>, Seq<char>>,
    formats: Map<Seq<Seq<char>>, Seq<char>>,
    path: Seq<Seq<char>>,
) -> Seq<char> {
    with_comment(acc, comments, path.push(key)) + toml_key(key) + " = "@ + value_text(
        value,
        comments,
        formats,
        path.push(key),
    ) + "\n"@
}

/// `acc` followed by the lines of the first `n` of the listed entries.
pub open spec fn inline_keys_text(
    acc: Seq<char>,
    entries: Seq<(Seq<char>, DatumView)>,
    keys: Seq<usize>,
    n: nat,
    index: Index,
    path: Seq<Seq<char>>,
) -> Seq<char>
    decreases n,
{
    if n == 0 || n > keys.len() {
        acc
    } else {
        let before = inline_keys_text(acc, entries, keys, (n - 1) as nat, index, path);
        let at = keys[n - 1] as int;
        if 0 <= at < entries.len() {
            key_line(before, entries[at].0, entries[at].1, index.comments, index.formats, path)
        } else {
            before
        }
    }
}

/// Whether `field` is a direct child of `path` that is optional and has no
/// entry in the table.
pub open spec fn absent_optional(
    field: Seq<Seq<char>>,
    entries: Seq<(Seq<char>, DatumView)>,
    index: Index,
    path: Seq<Seq<char>>,
) -> bool {
    &&& field.len() == path.len() + 1
    &&& path.is_prefix_of(field)
    &&& index.optional_fields.contains(field)
    &&& !has_key(entries, field[path.len() as int])
}

/// `acc` followed by the comment of `field` and its commented-out line.
pub open spec fn placeholder(acc: Seq<char>, field: Seq<Seq<char>>, index: Index) -> Seq<char> {
    with_comment(acc, index.comments, field) + "# "@ + toml_key(field.last()) + " = ...\n"@
}

/// `acc` followed by the placeholders for those of the first `n` known paths
/// that are absent optional children of `path`.
pub open spec fn placeholders_text(
    acc: Seq<char>,
    entries: Seq<(Seq<char>, DatumView)>,
    n: nat,
    index: Index,
    path: Seq<Seq<char>>,
) -> Seq<char>
    decreases n,
{
    if n == 0 || n > index.all_fields.len() {
        acc
    } else {
        let before = placeholders_text(acc, entries, (n - 1) as nat, index, path);
        let field = index.all_fields[n - 1];
        if absent_optional(field, entries, index, path) {
            placeholder(before, field, index)
        } else {
            before
        }
    }
}

/// `acc` followed by one line `prefix.key = value` for each of the first `n`
/// entries, each under its comment. The prefix is copied as it is, the key
/// is encoded. A child that is a table is written as a value.
pub open spec fn dotted_lines(
    acc: Seq<char>,
    prefix: Seq<char>,
    entries: Seq<(Seq<char>, DatumView)>,
    n: nat,
    comments: Map<Seq<Seq<char>>, Seq<char>>,
    formats: Map<Seq<Seq<char>>, Seq<char>>,
    path: Seq<Seq<char>>,
) -> Seq<char>
    decreases n,
{
    if n == 0 || n > entries.len() {
        acc
    } else {
        let before = dotted_lines(acc, prefix, entries, (n - 1) as nat, comments, formats, path);
        let entry = entries[n - 1];
        with_comment(before, comments, path.push(entry.0)) + prefix + "."@ + toml_key(entry.0)
            + " = "@
            + value_text(entry.1, comments, formats, path.push(entry.0)) + "\n"@
    }
}

/// A key, encoded, under a dotted prefix that is copied as it is.
pub open spec fn dotted_key(prefix: Seq<char>, key: Seq<char>) -> Seq<char> {
    prefix + "."@ + toml_key(key)
}

/// `acc` followed by the comment at `path` and the line `key = value`, where
/// `key` is the key as it is to be written.
pub open spec fn plain_line(
    acc: Seq<char>,
    key: Seq<char>,
    value: DatumView,
    comments: Map<Seq<Seq<char>>, Seq<char>>,
    formats: Map<Seq<Seq<char>>, Seq<char>>,
    path: Seq<Seq<char>>,
) -> Seq<char> {
    with_comment(acc, comments, path) + key + " = "@ + value_text(
        value,
        comments,
        formats,
        path,
    ) + "\n"@
}

/// `acc` followed by the first `n` entries flattened into dotted keys at
/// every depth: a table contributes the lines of its entries, anything else
/// one line under its comment. The prefix is copied as it is, every key
/// below it is encoded.
pub open spec fn flatten_text(
    acc: Seq<char>,
    prefix: Seq<char>,
    entries: Seq<(Seq<char>, DatumView)>,
    n: nat,
    comments: Map<Seq<Seq<char>>, Seq<char>>,
    formats: Map<Seq<Seq<char>>, Seq<char>>,
    path: Seq<Seq<char>>,
) -> Seq<char>
    decreases entries, n,
{
    if n == 0 || n > entries.len() {
        acc
    } else {
        let before = flatten_text(acc, prefix, entries, (n - 1) as nat, comments, formats, path);
        let entry = entries[n - 1];
        match entry.1 {
            DatumView::Table(nested) => flatten_text(
                before,
                dotted_key(prefix, entry.0),
                nested,
                nested.len(),
                comments, formats,
                path.push(entry.0),
            ),
            _ => plain_line(
                before,
                dotted_key(prefix, entry.0),
                entry.1,
                comments,
                formats,
                path.push(entry.0),
            ),
        }
    }
}

/// `acc` followed by the first `n` children of a section whose children are
/// dotted: a table child contributes one dotted line per entry, anything
/// else its key line.
pub open spec fn child_dotted_text(
    acc: Seq<char>,
    entries: Seq<(Seq<char>, DatumView)>,
    n: nat,
    comments: Map<Seq<Seq<char>>, Seq<char>>,
    formats: Map<Seq<Seq<char>>, Seq<char>>,
    path: Seq<Seq<char>>,
) -> Seq<char>
    decreases n,
{
    if n == 0 || n > entries.len() {
        acc
    } else {
        let before = child_dotted_text(acc, entries, (n - 1) as nat, comments, formats, path);
        let entry = entries[n - 1];
        match entry.1 {
            DatumView::Table(nested) => dotted_lines(
                before,
                toml_key(entry.0),
                nested,
                nested.len(),
                comments,
                formats,
                path.push(entry.0),
            ),
            _ => key_line(before, entry.0, entry.1, comments, formats, path),
        }
    }
}

/// `acc` followed by the first `n` children of a section whose children are
/// flattened: a table child is flattened at every depth, anything else is
/// its key line.
pub open spec fn child_flat_text(
    acc: Seq<char>,
    entries: Seq<(Seq<char>, DatumView)>,
    n: nat,
    comments: Map<Seq<Seq<char>>, Seq<char>>,
    formats: Map<Seq<Seq<char>>, Seq<char>>,
    path: Seq<Seq<char>>,
) -> Seq<char>
    decreases n,
{
    if n == 0 || n > entries.len() {
        acc
    } else {
        let before = child_flat_text(acc, entries, (n - 1) as nat, comments, formats, path);
        let entry = entries[n - 1];
        match entry.1 {
            DatumView::Table(nested) => flatten_text(
                before,
                toml_key(entry.0),
                nested,
                nested.len(),
                comments,
                formats,
                path.push(entry.0),
            ),
            _ => key_line(before, entry.0, entry.1, comments, formats, path),
        }
    }
}

/// The `key = value` items of an inline map, each key encoded, each value
/// at its own path.
pub open spec fn inline_items(
    entries: Seq<(Seq<char>, DatumView)>,
    comments: Map<Seq<Seq<char>>, Seq<char>>,
    formats: Map<Seq<Seq<char>>, Seq<char>>,
    path: Seq<Seq<char>>,
) -> Seq<Seq<char>> {
    Seq::new(
        entries.len(),
        |i: int|
            toml_key(entries[i].0) + " = "@ + value_text(
                entries[i].1,
                comments,
                formats,
                path.push(entries[i].0),
            ),
    )
}

/// `acc` followed by the table at `path` as an inline map on one line.
pub open spec fn inline_table_line(
    acc: Seq<char>,
    key: Seq<char>,
    entries: Seq<(Seq<char>, DatumView)>,
    comments: Map<Seq<Seq<char>>, Seq<char>>,
    formats: Map<Seq<Seq<char>>, Seq<char>>,
    path: Seq<Seq<char>>,
) -> Seq<char> {
    with_comment(acc, comments, path) + toml_key(key) + " = { "@ + join(
        inline_items(entries, comments, formats, path),
        ", "@,
    ) + " }\n"@
}

/// `acc` followed by a blank line where one is due, the comment at `path`
/// and the header `[path]`.
pub open spec fn section_header(
    acc: Seq<char>,
    comments: Map<Seq<Seq<char>>, Seq<char>>,
    path: Seq<Seq<char>>,
) -> Seq<char> {
    with_comment(separated(acc), comments, path) + "["@ + encoded_path(path) + "]\n"@
}

/// `acc` followed by a blank line where one is due, the comment at `path`
/// and the header `[[path]]`.
pub open spec fn array_header(
    acc: Seq<char>,
    comments: Map<Seq<Seq<char>>, Seq<char>>,
    path: Seq<Seq<char>>,
) -> Seq<char> {
    with_comment(separated(acc), comments, path) + "[["@ + encoded_path(path) + "]]\n"@
}

/// The comment registered for the root followed by an empty line, at the
/// root and where there is such a comment; else nothing.
pub open spec fn root_comment(index: Index, path: Seq<Seq<char>>) -> Seq<char> {
    if path.len() == 0 && index.comments.contains_key(Seq::empty()) {
        with_comment(Seq::empty(), index.comments, Seq::empty()) + "\n"@
    } else {
        Seq::empty()
    }
}

/// `acc` followed by the body of the table `value` at `path`: the root
/// comment, the `key = value` lines, the placeholders of absent optional
/// fields, the nested tables that are laid out as key lines, the nested
/// tables that get a section, then the arrays of tables. Whatever belongs to
/// the table itself so stands before the first header below it. `acc` is
/// the whole document written so far, so that a header below sees what
/// stands before it. Nothing is added where `value` is no table.
pub open spec fn table_text(
    acc: Seq<char>,
    value: DatumView,
    index: Index,
    path: Seq<Seq<char>>,
) -> Seq<char>
    decreases value, 0nat,
{
    match value {
        DatumView::Table(entries) => {
            let inline = keys_of_kind(entries, Kind::Inline, entries.len());
            let nested = keys_of_kind(entries, Kind::Nested, entries.len());
            let arrays = keys_of_kind(entries, Kind::ArrayOfTables, entries.len());
            let a1 = inline_keys_text(
                acc + root_comment(index, path),
                entries,
                inline,
                inline.len(),
                index,
                path,
            );
            let a2 = placeholders_text(a1, entries, index.all_fields.len(), index, path);
            let a3 = nested_tables_text(a2, entries, nested, nested.len(), false, index, path);
            let a4 = nested_tables_text(a3, entries, nested, nested.len(), true, index, path);
            array_tables_text(a4, entries, arrays, arrays.len(), index, path)
        },
        _ => acc,
    }
}

/// `acc` followed by the nested table `child` under `key`, laid out as the
/// directive at its path says.
pub open spec fn nested_table_text(
    acc: Seq<char>,
    key: Seq<char>,
    child: DatumView,
    index: Index,
    path: Seq<Seq<char>>,
) -> Seq<char>
    decreases child, 1nat,
{
    let here = path.push(key);
    match child {
        DatumView::Table(entries) => match directive_at(index.formats, here) {
            Directive::Inline => inline_table_line(
                acc,
                key,
                entries,
                index.comments,
                index.formats,
                here,
            ),
            Directive::Dotted => dotted_lines(
                with_comment(acc, index.comments, here),
                toml_key(key),
                entries,
                entries.len(),
                index.comments,
                index.formats,
                here,
            ),
            Directive::DottedNested => flatten_text(
                with_comment(acc, index.comments, here),
                toml_key(key),
                entries,
                entries.len(),
                index.comments,
                index.formats,
                here,
            ),
            Directive::ChildDotted => child_dotted_text(
                section_header(acc, index.comments, here),
                entries,
                entries.len(),
                index.comments,
                index.formats,
                here,
            ),
            Directive::ChildDottedNested => child_flat_text(
                section_header(acc, index.comments, here),
                entries,
                entries.len(),
                index.comments,
                index.formats,
                here,
            ),
            _ => table_text(section_header(acc, index.comments, here), child, index, here),
        },
        _ => acc,
    }
}

/// Whether a directive gives a nested table a section of its own. The
/// others lay it out as key lines of the table it stands in.
pub open spec fn is_section(directive: Directive) -> bool {
    !(directive is Inline || directive is Dotted || directive is DottedNested)
}

/// `acc` followed by those of the first `n` listed nested tables that get a
/// section, where `sections` is set, or those that are laid out as key
/// lines, where it is not.
pub open spec fn nested_tables_text(
    acc: Seq<char>,
    entries: Seq<(Seq<char>, DatumView)>,
    keys: Seq<usize>,
    n: nat,
    sections: bool,
    index: Index,
    path: Seq<Seq<char>>,
) -> Seq<char>
    decreases entries, n,
{
    if n == 0 || n > keys.len() {
        acc
    } else {
        let before = nested_tables_text(
            acc,
            entries,
            keys,
            (n - 1) as nat,
            sections,
            index,
            path,
        );
        let at = keys[n - 1] as int;
        if 0 <= at < entries.len() && is_section(
            directive_at(index.formats, path.push(entries[at].0)),
        ) == sections {
            nested_table_text(before, entries[at].0, entries[at].1, index, path)
        } else {
            before
        }
    }
}

/// `acc` followed by the first `n` elements of an array of tables at
/// `path`, each under a blank line where one is due, the array's comment and
/// the header `[[path]]`.
pub open spec fn array_items_text(
    acc: Seq<char>,
    items: Seq<DatumView>,
    n: nat,
    index: Index,
    path: Seq<Seq<char>>,
) -> Seq<char>
    decreases items, n,
{
    if n == 0 || n > items.len() {
        acc
    } else {
        let before = array_items_text(acc, items, (n - 1) as nat, index, path);
        table_text(array_header(before, index.comments, path), items[n - 1], index, path)
    }
}

/// `acc` followed by the first `n` of the listed arrays of tables.
pub open spec fn array_tables_text(
    acc: Seq<char>,
    entries: Seq<(Seq<char>, DatumView)>,
    keys: Seq<usize>,
    n: nat,
    index: Index,
    path: Seq<Seq<char>>,
) -> Seq<char>
    decreases entries, n,
{
    if n == 0 || n > keys.len() {
        acc
    } else {
        let before = array_tables_text(acc, entries, keys, (n - 1) as nat, index, path);
        let at = keys[n - 1] as int;
        if 0 <= at < entries.len() {
            match entries[at].1 {
                DatumView::Array(items) => array_items_text(
                    before,
                    items,
                    items.len(),
                    index,
                    path.push(entries[at].0),
                ),
                _ => before,
            }
        } else {
            before
        }
    }
}

} // verus!
