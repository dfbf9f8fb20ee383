//! Order: every layout step only adds to what was written before it, so the
//! parts of a table's document stand in the order in which they are laid
//! out: key lines, placeholders, nested tables, arrays of tables.

use crate::comment::with_comment;
use crate::datum::DatumView;
use crate::directive::{Directive, directive_at};
use crate::layout::{
    absent_optional, array_header, array_items_text, array_tables_text, child_dotted_text,
    child_flat_text, dotted_key, dotted_lines, encoded_path, flatten_text, Index, inline_items,
    inline_keys_text, inline_table_line, key_line, keys_of_kind, Kind, nested_table_text,
    nested_tables_text, placeholder, placeholders_text, plain_line, root_comment,
    section_header, separated, table_text, value_text,
};
use crate::text::join;
use crate::writer::toml_key;
use vstd::prelude::*;

verus! {

proof fn lemma_same(acc: Seq<char>)
    ensures
        acc.is_prefix_of(acc),
{
    assert(acc.subrange(0, acc.len() as int) =~= acc);
}

proof fn lemma_more(acc: Seq<char>, more: Seq<char>)
    ensures
        acc.is_prefix_of(acc + more),
{
    assert((acc + more).subrange(0, acc.len() as int) =~= acc);
}

proof fn lemma_on(acc: Seq<char>, mid: Seq<char>, out: Seq<char>)
    requires
        acc.is_prefix_of(mid),
        mid.is_prefix_of(out),
    ensures
        acc.is_prefix_of(out),
{
    assert forall|i: int| 0 <= i < acc.len() implies out[i] == acc[i] by {
        assert(mid.subrange(0, acc.len() as int)[i] == mid[i]);
        assert(out.subrange(0, mid.len() as int)[i] == out[i]);
    }
    assert(out.subrange(0, acc.len() as int) =~= acc);
}

proof fn lemma_with_comment(
    acc: Seq<char>,
    comments: Map<Seq<Seq<char>>, Seq<char>>,
    path: Seq<Seq<char>>,
)
    ensures
        acc.is_prefix_of(with_comment(acc, comments, path)),
{
    lemma_same(acc);
    if comments.contains_key(path) {
        lemma_more(acc, crate::comment::comment_block(comments[path]));
    }
}

proof fn lemma_separated(acc: Seq<char>)
    ensures
        acc.is_prefix_of(separated(acc)),
{
    lemma_same(acc);
    lemma_more(acc, "\n"@);
}

proof fn lemma_key_line(
    acc: Seq<char>,
    key: Seq<char>,
    value: DatumView,
    comments: Map<Seq<Seq<char>>, Seq<char>>,
    formats: Map<Seq<Seq<char>>, Seq<char>>,
    path: Seq<Seq<char>>,
)
    ensures
        acc.is_prefix_of(key_line(acc, key, value, comments, formats, path)),
{
    let w = with_comment(acc, comments, path.push(key));
    lemma_with_comment(acc, comments, path.push(key));
    let text = value_text(value, comments, formats, path.push(key));
    lemma_more(w, toml_key(key));
    lemma_more(w + toml_key(key), " = "@);
    lemma_more(w + toml_key(key) + " = "@, text);
    lemma_more(w + toml_key(key) + " = "@ + text, "\n"@);
    lemma_on(w, w + toml_key(key), w + toml_key(key) + " = "@);
    lemma_on(w, w + toml_key(key) + " = "@, w + toml_key(key) + " = "@ + text);
    lemma_on(w, w + toml_key(key) + " = "@ + text, w + toml_key(key) + " = "@ + text + "\n"@);
    lemma_on(acc, w, key_line(acc, key, value, comments, formats, path));
}

proof fn lemma_plain_line(
    acc: Seq<char>,
    key: Seq<char>,
    value: DatumView,
    comments: Map<Seq<Seq<char>>, Seq<char>>,
    formats: Map<Seq<Seq<char>>, Seq<char>>,
    path: Seq<Seq<char>>,
)
    ensures
        acc.is_prefix_of(plain_line(acc, key, value, comments, formats, path)),
{
    let w = with_comment(acc, comments, path);
    lemma_with_comment(acc, comments, path);
    let text = value_text(value, comments, formats, path);
    lemma_more(w, key);
    lemma_more(w + key, " = "@);
    lemma_more(w + key + " = "@, text);
    lemma_more(w + key + " = "@ + text, "\n"@);
    lemma_on(w, w + key, w + key + " = "@);
    lemma_on(w, w + key + " = "@, w + key + " = "@ + text);
    lemma_on(w, w + key + " = "@ + text, w + key + " = "@ + text + "\n"@);
    lemma_on(acc, w, plain_line(acc, key, value, comments, formats, path));
}

proof fn lemma_placeholder(acc: Seq<char>, field: Seq<Seq<char>>, index: Index)
    ensures
        acc.is_prefix_of(placeholder(acc, field, index)),
{
    let w = with_comment(acc, index.comments, field);
    lemma_with_comment(acc, index.comments, field);
    lemma_more(w, "# "@);
    lemma_more(w + "# "@, toml_key(field.last()));
    lemma_more(w + "# "@ + toml_key(field.last()), " = ...\n"@);
    lemma_on(w, w + "# "@, w + "# "@ + toml_key(field.last()));
    lemma_on(w, w + "# "@ + toml_key(field.last()), placeholder(acc, field, index));
    lemma_on(acc, w, placeholder(acc, field, index));
}

proof fn lemma_header(
    acc: Seq<char>,
    comments: Map<Seq<Seq<char>>, Seq<char>>,
    path: Seq<Seq<char>>,
)
    ensures
        acc.is_prefix_of(section_header(acc, comments, path)),
        acc.is_prefix_of(array_header(acc, comments, path)),
{
    let w = with_comment(separated(acc), comments, path);
    lemma_separated(acc);
    lemma_with_comment(separated(acc), comments, path);
    lemma_on(acc, separated(acc), w);
    lemma_more(w, "["@);
    lemma_more(w + "["@, encoded_path(path));
    lemma_more(w + "["@ + encoded_path(path), "]\n"@);
    lemma_on(w, w + "["@, w + "["@ + encoded_path(path));
    lemma_on(w, w + "["@ + encoded_path(path), section_header(acc, comments, path));
    lemma_on(acc, w, section_header(acc, comments, path));
    lemma_more(w, "[["@);
    lemma_more(w + "[["@, encoded_path(path));
    lemma_more(w + "[["@ + encoded_path(path), "]]\n"@);
    lemma_on(w, w + "[["@, w + "[["@ + encoded_path(path));
    lemma_on(w, w + "[["@ + encoded_path(path), array_header(acc, comments, path));
    lemma_on(acc, w, array_header(acc, comments, path));
}

proof fn lemma_inline_keys_text(
    acc: Seq<char>,
    entries: Seq<(Seq<char>, DatumView)>,
    keys: Seq<usize>,
    n: nat,
    index: Index,
    path: Seq<Seq<char>>,
)
    ensures
        acc.is_prefix_of(inline_keys_text(acc, entries, keys, n, index, path)),
    decreases n,
{
    lemma_same(acc);
    if n == 0 || n > keys.len() {
    } else {
        lemma_inline_keys_text(acc, entries, keys, (n - 1) as nat, index, path);
        let before = inline_keys_text(acc, entries, keys, (n - 1) as nat, index, path);
        let at = keys[n - 1] as int;
        if 0 <= at < entries.len() {
            lemma_key_line(
                before,
                entries[at].0,
                entries[at].1,
                index.comments,
                index.formats,
                path,
            );
            lemma_on(acc, before, inline_keys_text(acc, entries, keys, n, index, path));
        }
    }
}

proof fn lemma_placeholders_text(
    acc: Seq<char>,
    entries: Seq<(Seq<char>, DatumView)>,
    n: nat,
    index: Index,
    path: Seq<Seq<char>>,
)
    ensures
        acc.is_prefix_of(placeholders_text(acc, entries, n, index, path)),
    decreases n,
{
    lemma_same(acc);
    if n == 0 || n > index.all_fields.len() {
    } else {
        lemma_placeholders_text(acc, entries, (n - 1) as nat, index, path);
        let before = placeholders_text(acc, entries, (n - 1) as nat, index, path);
        let field = index.all_fields[n - 1];
        if absent_optional(field, entries, index, path) {
            lemma_placeholder(before, field, index);
            lemma_on(acc, before, placeholders_text(acc, entries, n, index, path));
        }
    }
}

proof fn lemma_dotted_lines(
    acc: Seq<char>,
    prefix: Seq<char>,
    entries: Seq<(Seq<char>, DatumView)>,
    n: nat,
    comments: Map<Seq<Seq<char>>, Seq<char>>,
    formats: Map<Seq<Seq<char>>, Seq<char>>,
    path: Seq<Seq<char>>,
)
    ensures
        acc.is_prefix_of(dotted_lines(acc, prefix, entries, n, comments, formats, path)),
    decreases n,
{
    lemma_same(acc);
    if n == 0 || n > entries.len() {
    } else {
        lemma_dotted_lines(acc, prefix, entries, (n - 1) as nat, comments, formats, path);
        let before = dotted_lines(acc, prefix, entries, (n - 1) as nat, comments, formats, path);
        let entry = entries[n - 1];
        let w = with_comment(before, comments, path.push(entry.0));
        lemma_with_comment(before, comments, path.push(entry.0));
        let text = value_text(entry.1, comments, formats, path.push(entry.0));
        let a = w + prefix;
        let b = a + "."@;
        let c = b + toml_key(entry.0);
        let d = c + " = "@;
        let e = d + text;
        lemma_more(w, prefix);
        lemma_more(a, "."@);
        lemma_more(b, toml_key(entry.0));
        lemma_more(c, " = "@);
        lemma_more(d, text);
        lemma_more(e, "\n"@);
        lemma_on(w, a, b);
        lemma_on(w, b, c);
        lemma_on(w, c, d);
        lemma_on(w, d, e);
        lemma_on(w, e, e + "\n"@);
        lemma_on(before, w, e + "\n"@);
        lemma_on(acc, before, e + "\n"@);
    }
}

proof fn lemma_flatten_text(
    acc: Seq<char>,
    prefix: Seq<char>,
    entries: Seq<(Seq<char>, DatumView)>,
    n: nat,
    comments: Map<Seq<Seq<char>>, Seq<char>>,
    formats: Map<Seq<Seq<char>>, Seq<char>>,
    path: Seq<Seq<char>>,
)
    ensures
        acc.is_prefix_of(flatten_text(acc, prefix, entries, n, comments, formats, path)),
    decreases entries, n,
{
    lemma_same(acc);
    if n == 0 || n > entries.len() {
    } else {
        lemma_flatten_text(acc, prefix, entries, (n - 1) as nat, comments, formats, path);
        let before = flatten_text(acc, prefix, entries, (n - 1) as nat, comments, formats, path);
        let entry = entries[n - 1];
        let out = flatten_text(acc, prefix, entries, n, comments, formats, path);
        match entry.1 {
            DatumView::Table(nested) => {
                lemma_flatten_text(
                    before,
                    dotted_key(prefix, entry.0),
                    nested,
                    nested.len(),
                    comments,
                    formats,
                    path.push(entry.0),
                );
            },
            _ => {
                lemma_plain_line(
                    before,
                    dotted_key(prefix, entry.0),
                    entry.1,
                    comments,
                    formats,
                    path.push(entry.0),
                );
            },
        }
        lemma_on(acc, before, out);
    }
}

proof fn lemma_child_dotted_text(
    acc: Seq<char>,
    entries: Seq<(Seq<char>, DatumView)>,
    n: nat,
    comments: Map<Seq<Seq<char>>, Seq<char>>,
    formats: Map<Seq<Seq<char>>, Seq<char>>,
    path: Seq<Seq<char>>,
)
    ensures
        acc.is_prefix_of(child_dotted_text(acc, entries, n, comments, formats, path)),
    decreases n,
{
    lemma_same(acc);
    if n == 0 || n > entries.len() {
    } else {
        lemma_child_dotted_text(acc, entries, (n - 1) as nat, comments, formats, path);
        let before = child_dotted_text(acc, entries, (n - 1) as nat, comments, formats, path);
        let entry = entries[n - 1];
        let out = child_dotted_text(acc, entries, n, comments, formats, path);
        match entry.1 {
            DatumView::Table(nested) => {
                lemma_dotted_lines(
                    before,
                    toml_key(entry.0),
                    nested,
                    nested.len(),
                    comments,
                    formats,
                    path.push(entry.0),
                );
            },
            _ => {
                lemma_key_line(before, entry.0, entry.1, comments, formats, path);
            },
        }
        lemma_on(acc, before, out);
    }
}

proof fn lemma_child_flat_text(
    acc: Seq<char>,
    entries: Seq<(Seq<char>, DatumView)>,
    n: nat,
    comments: Map<Seq<Seq<char>>, Seq<char>>,
    formats: Map<Seq<Seq<char>>, Seq<char>>,
    path: Seq<Seq<char>>,
)
    ensures
        acc.is_prefix_of(child_flat_text(acc, entries, n, comments, formats, path)),
    decreases n,
{
    lemma_same(acc);
    if n == 0 || n > entries.len() {
    } else {
        lemma_child_flat_text(acc, entries, (n - 1) as nat, comments, formats, path);
        let before = child_flat_text(acc, entries, (n - 1) as nat, comments, formats, path);
        let entry = entries[n - 1];
        let out = child_flat_text(acc, entries, n, comments, formats, path);
        match entry.1 {
            DatumView::Table(nested) => {
                lemma_flatten_text(
                    before,
                    toml_key(entry.0),
                    nested,
                    nested.len(),
                    comments,
                    formats,
                    path.push(entry.0),
                );
            },
            _ => {
                lemma_key_line(before, entry.0, entry.1, comments, formats, path);
            },
        }
        lemma_on(acc, before, out);
    }
}

proof fn lemma_inline_table_line(
    acc: Seq<char>,
    key: Seq<char>,
    entries: Seq<(Seq<char>, DatumView)>,
    comments: Map<Seq<Seq<char>>, Seq<char>>,
    formats: Map<Seq<Seq<char>>, Seq<char>>,
    path: Seq<Seq<char>>,
)
    ensures
        acc.is_prefix_of(inline_table_line(acc, key, entries, comments, formats, path)),
{
    let w = with_comment(acc, comments, path);
    lemma_with_comment(acc, comments, path);
    let items = join(inline_items(entries, comments, formats, path), ", "@);
    let a = w + toml_key(key);
    let b = a + " = { "@;
    let c = b + items;
    lemma_more(w, toml_key(key));
    lemma_more(a, " = { "@);
    lemma_more(b, items);
    lemma_more(c, " }\n"@);
    lemma_on(w, a, b);
    lemma_on(w, b, c);
    lemma_on(w, c, c + " }\n"@);
    lemma_on(acc, w, c + " }\n"@);
}

proof fn lemma_table_text(acc: Seq<char>, value: DatumView, index: Index, path: Seq<Seq<char>>)
    ensures
        acc.is_prefix_of(table_text(acc, value, index, path)),
    decreases value, 0nat,
{
    lemma_same(acc);
    match value {
        DatumView::Table(entries) => {
            let inline = keys_of_kind(entries, Kind::Inline, entries.len());
            let nested = keys_of_kind(entries, Kind::Nested, entries.len());
            let arrays = keys_of_kind(entries, Kind::ArrayOfTables, entries.len());
            let begun = acc + root_comment(index, path);
            let keyed = inline_keys_text(begun, entries, inline, inline.len(), index, path);
            let placed = placeholders_text(keyed, entries, index.all_fields.len(), index, path);
            let lined =
                nested_tables_text(placed, entries, nested, nested.len(), false, index, path);
            let sectioned = nested_tables_text(
                lined,
                entries,
                nested,
                nested.len(),
                true,
                index,
                path,
            );
            let whole = table_text(acc, value, index, path);
            lemma_more(acc, root_comment(index, path));
            lemma_inline_keys_text(begun, entries, inline, inline.len(), index, path);
            lemma_placeholders_text(keyed, entries, index.all_fields.len(), index, path);
            lemma_nested_tables_text(placed, entries, nested, nested.len(), false, index, path);
            lemma_nested_tables_text(lined, entries, nested, nested.len(), true, index, path);
            lemma_array_tables_text(sectioned, entries, arrays, arrays.len(), index, path);
            lemma_on(acc, begun, keyed);
            lemma_on(acc, keyed, placed);
            lemma_on(acc, placed, lined);
            lemma_on(acc, lined, sectioned);
            lemma_on(acc, sectioned, whole);
        },
        _ => {},
    }
}

proof fn lemma_nested_table_text(
    acc: Seq<char>,
    key: Seq<char>,
    child: DatumView,
    index: Index,
    path: Seq<Seq<char>>,
)
    ensures
        acc.is_prefix_of(nested_table_text(acc, key, child, index, path)),
    decreases child, 1nat,
{
    let here = path.push(key);
    let out = nested_table_text(acc, key, child, index, path);
    lemma_same(acc);
    match child {
        DatumView::Table(entries) => {
            let commented = with_comment(acc, index.comments, here);
            let headed = section_header(acc, index.comments, here);
            lemma_with_comment(acc, index.comments, here);
            lemma_header(acc, index.comments, here);
            match directive_at(index.formats, here) {
                Directive::Inline => {
                    lemma_inline_table_line(
                        acc,
                        key,
                        entries,
                        index.comments,
                        index.formats,
                        here,
                    );
                },
                Directive::Dotted => {
                    lemma_dotted_lines(
                        commented,
                        toml_key(key),
                        entries,
                        entries.len(),
                        index.comments,
                        index.formats,
                        here,
                    );
                    lemma_on(acc, commented, out);
                },
                Directive::DottedNested => {
                    lemma_flatten_text(
                        commented,
                        toml_key(key),
                        entries,
                        entries.len(),
                        index.comments,
                        index.formats,
                        here,
                    );
                    lemma_on(acc, commented, out);
                },
                Directive::ChildDotted => {
                    lemma_child_dotted_text(
                        headed,
                        entries,
                        entries.len(),
                        index.comments,
                        index.formats,
                        here,
                    );
                    lemma_on(acc, headed, out);
                },
                Directive::ChildDottedNested => {
                    lemma_child_flat_text(
                        headed,
                        entries,
                        entries.len(),
                        index.comments,
                        index.formats,
                        here,
                    );
                    lemma_on(acc, headed, out);
                },
                _ => {
                    lemma_table_text(headed, child, index, here);
                    lemma_on(acc, headed, out);
                },
            }
        },
        _ => {},
    }
}

proof fn lemma_nested_tables_text(
    acc: Seq<char>,
    entries: Seq<(Seq<char>, DatumView)>,
    keys: Seq<usize>,
    n: nat,
    sections: bool,
    index: Index,
    path: Seq<Seq<char>>,
)
    ensures
        acc.is_prefix_of(nested_tables_text(acc, entries, keys, n, sections, index, path)),
    decreases entries, n,
{
    lemma_same(acc);
    if n == 0 || n > keys.len() {
    } else {
        lemma_nested_tables_text(acc, entries, keys, (n - 1) as nat, sections, index, path);
        let before = nested_tables_text(acc, entries, keys, (n - 1) as nat, sections, index, path);
        let at = keys[n - 1] as int;
        if 0 <= at < entries.len() {
            lemma_nested_table_text(before, entries[at].0, entries[at].1, index, path);
            lemma_on(
                acc,
                before,
                nested_tables_text(acc, entries, keys, n, sections, index, path),
            );
        }
    }
}

proof fn lemma_array_items_text(
    acc: Seq<char>,
    items: Seq<DatumView>,
    n: nat,
    index: Index,
    path: Seq<Seq<char>>,
)
    ensures
        acc.is_prefix_of(array_items_text(acc, items, n, index, path)),
    decreases items, n,
{
    lemma_same(acc);
    if n == 0 || n > items.len() {
    } else {
        lemma_array_items_text(acc, items, (n - 1) as nat, index, path);
        let before = array_items_text(acc, items, (n - 1) as nat, index, path);
        let headed = array_header(before, index.comments, path);
        lemma_header(before, index.comments, path);
        lemma_table_text(headed, items[n - 1], index, path);
        lemma_on(before, headed, array_items_text(acc, items, n, index, path));
        lemma_on(acc, before, array_items_text(acc, items, n, index, path));
    }
}

proof fn lemma_array_tables_text(
    acc: Seq<char>,
    entries: Seq<(Seq<char>, DatumView)>,
    keys: Seq<usize>,
    n: nat,
    index: Index,
    path: Seq<Seq<char>>,
)
    ensures
        acc.is_prefix_of(array_tables_text(acc, entries, keys, n, index, path)),
    decreases entries, n,
{
    lemma_same(acc);
    if n == 0 || n > keys.len() {
    } else {
        lemma_array_tables_text(acc, entries, keys, (n - 1) as nat, index, path);
        let before = array_tables_text(acc, entries, keys, (n - 1) as nat, index, path);
        let at = keys[n - 1] as int;
        if 0 <= at < entries.len() {
            match entries[at].1 {
                DatumView::Array(items) => {
                    lemma_array_items_text(
                        before,
                        items,
                        items.len(),
                        index,
                        path.push(entries[at].0),
                    );
                    lemma_on(acc, before, array_tables_text(acc, entries, keys, n, index, path));
                },
                _ => {},
            }
        }
    }
}

/// The parts of a table's body stand in a fixed order behind what was
/// written before it: the root comment; then the `key = value` lines, then
/// the placeholders, then the nested tables that are laid out as key lines,
/// then the nested tables that get a section, then the arrays of tables.
/// Each part only adds to what stands before it.
pub proof fn law_parts_in_order(
    acc: Seq<char>,
    entries: Seq<(Seq<char>, DatumView)>,
    index: Index,
    path: Seq<Seq<char>>,
)
    ensures
        ({
            let inline = keys_of_kind(entries, Kind::Inline, entries.len());
            let nested = keys_of_kind(entries, Kind::Nested, entries.len());
            let arrays = keys_of_kind(entries, Kind::ArrayOfTables, entries.len());
            let begun = acc + root_comment(index, path);
            let keyed = inline_keys_text(begun, entries, inline, inline.len(), index, path);
            let placed = placeholders_text(keyed, entries, index.all_fields.len(), index, path);
            let lined = nested_tables_text(
                placed,
                entries,
                nested,
                nested.len(),
                false,
                index,
                path,
            );
            let sectioned = nested_tables_text(
                lined,
                entries,
                nested,
                nested.len(),
                true,
                index,
                path,
            );
            let whole = table_text(acc, DatumView::Table(entries), index, path);
            &&& whole == array_tables_text(sectioned, entries, arrays, arrays.len(), index, path)
            &&& acc.is_prefix_of(begun)
            &&& begun.is_prefix_of(keyed)
            &&& keyed.is_prefix_of(placed)
            &&& placed.is_prefix_of(lined)
            &&& lined.is_prefix_of(sectioned)
            &&& sectioned.is_prefix_of(whole)
        }),
{
    let inline = keys_of_kind(entries, Kind::Inline, entries.len());
    let nested = keys_of_kind(entries, Kind::Nested, entries.len());
    let arrays = keys_of_kind(entries, Kind::ArrayOfTables, entries.len());
    let begun = acc + root_comment(index, path);
    let keyed = inline_keys_text(begun, entries, inline, inline.len(), index, path);
    let placed = placeholders_text(keyed, entries, index.all_fields.len(), index, path);
    let lined = nested_tables_text(placed, entries, nested, nested.len(), false, index, path);
    let sectioned = nested_tables_text(lined, entries, nested, nested.len(), true, index, path);
    lemma_more(acc, root_comment(index, path));
    lemma_inline_keys_text(begun, entries, inline, inline.len(), index, path);
    lemma_placeholders_text(keyed, entries, index.all_fields.len(), index, path);
    lemma_nested_tables_text(placed, entries, nested, nested.len(), false, index, path);
    lemma_nested_tables_text(lined, entries, nested, nested.len(), true, index, path);
    lemma_array_tables_text(sectioned, entries, arrays, arrays.len(), index, path);
}

/// A placeholder stands for a known path exactly when that path is a direct
/// child of the table's path, is optional and has no entry in the table; it
/// is then the line `# key = ...` with the key encoded, directly under the
/// comment of that path. The placeholders follow the order of the known
/// paths.
pub proof fn law_placeholder_for_absent_optional(
    acc: Seq<char>,
    entries: Seq<(Seq<char>, DatumView)>,
    n: nat,
    index: Index,
    path: Seq<Seq<char>>,
)
    requires
        0 < n <= index.all_fields.len(),
    ensures
        ({
            let field = index.all_fields[n - 1];
            let before = placeholders_text(acc, entries, (n - 1) as nat, index, path);
            let after = placeholders_text(acc, entries, n, index, path);
            &&& absent_optional(field, entries, index, path) ==> after == with_comment(
                before,
                index.comments,
                field,
            ) + "# "@ + toml_key(field.last()) + " = ...\n"@
            &&& !absent_optional(field, entries, index, path) ==> after == before
            &&& absent_optional(field, entries, index, path) <==> {
                &&& field.len() == path.len() + 1
                &&& path.is_prefix_of(field)
                &&& index.optional_fields.contains(field)
                &&& !crate::layout::has_key(entries, field[path.len() as int])
            }
        }),
{
}

} // verus!
