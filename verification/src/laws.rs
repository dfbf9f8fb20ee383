//! Laws of the library: statements that relate several of its functions and
//! hold for every input.

use crate::comment::{
    after_first_line, comment_block, comment_line, comment_lines, first_line, kept_rows,
    lemma_line_end, rows_text, text_lines, with_comment, without_empty,
};
use crate::datum::DatumView;
use crate::directive::{Directive, directive_at, directive_of};
use crate::field_path::FieldPath;
use crate::layout::{
    array_header, child_dotted_text, child_flat_text, dotted_lines, encoded_path, flatten_text,
    Index, inline_table_line, item_texts, scalars_only, key_line, nested_table_text, placeholder,
    section_header, separated, table_text, value_text,
};
use crate::scaffold::with_preferences;
use crate::schema::{extraction_with, SchemaInfo, SchemaNode};
use crate::text::join;
use crate::writer::toml_key;
use vstd::prelude::*;

verus! {

/// Extraction is repeatable: two indices extracted from the same schema at
/// the same starting path, in the same dialect, are the same, part by part.
pub proof fn law_extraction_repeats(
    schema: SchemaNode,
    prefix: FieldPath,
    table: Seq<char>,
    lead: Seq<char>,
    first: SchemaInfo,
    second: SchemaInfo,
)
    requires
        first@ == extraction_with(schema@, prefix@, table, lead),
        second@ == extraction_with(schema@, prefix@, table, lead),
    ensures
        first@ == second@,
        first.comments@ == second.comments@,
        first.all_fields@ == second.all_fields@,
        first.optional_fields@ == second.optional_fields@,
        first.formats@ == second.formats@,
{
}

/// The tags of the directive vocabulary name the directives they stand for,
/// and no two of them name the same one.
pub proof fn law_directive_tags()
    ensures
        directive_of("inline"@) == Directive::Inline,
        directive_of("dotted"@) == Directive::Dotted,
        directive_of("dotted-nested"@) == Directive::DottedNested,
        directive_of("multiline"@) == Directive::Multiline,
        directive_of("*dotted"@) == Directive::ChildDotted,
        directive_of("*dotted-nested"@) == Directive::ChildDottedNested,
{
    reveal_strlit("inline");
    reveal_strlit("dotted");
    reveal_strlit("dotted-nested");
    reveal_strlit("multiline");
    reveal_strlit("*dotted");
    reveal_strlit("*dotted-nested");
    assert("dotted"@.len() != "inline"@.len() || "dotted"@[0] != "inline"@[0]);
    assert("dotted-nested"@.len() != "dotted"@.len());
    assert("multiline"@[0] != "inline"@[0]);
    assert("multiline"@[0] != "dotted"@[0]);
    assert("*dotted"@[0] == '*');
    assert("*dotted-nested"@[0] == '*');
    assert("*dotted"@.skip(1) =~= "dotted"@);
    assert("*dotted-nested"@.skip(1) =~= "dotted-nested"@);
    assert("*dotted"@[0] != "inline"@[0]);
    assert("*dotted"@[0] != "dotted"@[0]);
    assert("*dotted"@[0] != "multiline"@[0]);
    assert("*dotted-nested"@[0] != "inline"@[0]);
    assert("*dotted-nested"@[0] != "dotted"@[0]);
    assert("*dotted-nested"@[0] != "multiline"@[0]);
    assert("multiline"@.len() != "dotted-nested"@.len());
    assert("inline"@.len() != "dotted-nested"@.len());
}

/// An explicit directive decides the layout of a nested table: with a tag
/// registered at the table's path, the table is laid out as that tag says
/// and not as a section with its own body, which is what it gets only where
/// nothing is registered.
pub proof fn law_explicit_directive_wins(
    acc: Seq<char>,
    key: Seq<char>,
    entries: Seq<(Seq<char>, DatumView)>,
    index: Index,
    path: Seq<Seq<char>>,
)
    ensures
        ({
            let here = path.push(key);
            let child = DatumView::Table(entries);
            let laid_out = nested_table_text(acc, key, child, index, path);
            let tagged = |tag: Seq<char>|
                index.formats.contains_key(here) && index.formats[here] == tag;
            &&& tagged("inline"@) ==> laid_out == inline_table_line(
                acc,
                key,
                entries,
                index.comments,
                index.formats,
                here,
            )
            &&& tagged("dotted"@) ==> laid_out == dotted_lines(
                with_comment(acc, index.comments, here),
                toml_key(key),
                entries,
                entries.len(),
                index.comments,
                index.formats,
                here,
            )
            &&& tagged("dotted-nested"@) ==> laid_out == flatten_text(
                with_comment(acc, index.comments, here),
                toml_key(key),
                entries,
                entries.len(),
                index.comments,
                index.formats,
                here,
            )
            &&& tagged("*dotted"@) ==> laid_out == child_dotted_text(
                section_header(acc, index.comments, here),
                entries,
                entries.len(),
                index.comments,
                index.formats,
                here,
            )
            &&& tagged("*dotted-nested"@) ==> laid_out == child_flat_text(
                section_header(acc, index.comments, here),
                entries,
                entries.len(),
                index.comments,
                index.formats,
                here,
            )
            &&& !index.formats.contains_key(here) ==> laid_out == table_text(
                section_header(acc, index.comments, here),
                child,
                index,
                here,
            )
        }),
{
    law_directive_tags();
}

/// The `multiline` directive decides the layout of an array of scalars
/// that has elements: with it registered at the array's path, every element
/// stands on a line of its own. With nothing registered, without elements,
/// or with an element that is no scalar, the array stands on one line.
pub proof fn law_multiline_directive_wins(
    items: Seq<DatumView>,
    comments: Map<Seq<Seq<char>>, Seq<char>>,
    formats: Map<Seq<Seq<char>>, Seq<char>>,
    path: Seq<Seq<char>>,
)
    ensures
        ({
            let texts = item_texts(items, comments, formats, path);
            let written = value_text(DatumView::Array(items), comments, formats, path);
            let tagged = formats.contains_key(path) && formats[path] == "multiline"@;
            &&& tagged && items.len() > 0 && scalars_only(items) ==> written == "[\n  "@ + join(
                texts,
                ",\n  "@,
            ) + ",\n]"@
            &&& !tagged || items.len() == 0 || !scalars_only(items) ==> written == "["@ + join(
                texts,
                ", "@,
            ) + "]"@
            &&& items.len() == 0 ==> written == "["@ + "]"@
        }),
{
    law_directive_tags();
    if items.len() == 0 {
        let texts = item_texts(items, comments, formats, path);
        assert("["@ + join(texts, ", "@) + "]"@ =~= "["@ + "]"@);
    }
}

/// A preference of the caller beats the directive that the index brought
/// for the same path; a path that the caller does not name keeps its
/// directive.
pub proof fn law_preferences_win(
    index: Index,
    preferences: Map<Seq<Seq<char>>, Seq<char>>,
    path: Seq<Seq<char>>,
)
    ensures
        preferences.contains_key(path) ==> directive_at(
            with_preferences(index, preferences).formats,
            path,
        ) == directive_of(preferences[path]),
        !preferences.contains_key(path) ==> directive_at(
            with_preferences(index, preferences).formats,
            path,
        ) == directive_at(index.formats, path),
{
}

/// Whether a line starts at position `i` of `text`: at its beginning, or
/// right behind a line feed.
pub open spec fn line_starts_at(text: Seq<char>, i: int) -> bool {
    0 <= i < text.len() && (i == 0 || text[i - 1] == '\n')
}

/// Whether every line of `block` starts with `#` and the last one is ended
/// by a line feed.
pub open spec fn every_line_commented(block: Seq<char>) -> bool {
    &&& block.len() > 0 ==> block.last() == '\n'
    &&& forall|i: int| #[trigger] line_starts_at(block, i) ==> block[i] == '#'
}

proof fn lemma_commented_concat(a: Seq<char>, b: Seq<char>)
    requires
        every_line_commented(a),
        every_line_commented(b),
    ensures
        every_line_commented(a + b),
{
    let block = a + b;
    assert forall|i: int| #[trigger] line_starts_at(block, i) implies block[i] == '#' by {
        if i < a.len() {
            assert(line_starts_at(a, i));
        } else {
            assert(line_starts_at(b, i - a.len()));
        }
    }
}

proof fn lemma_comment_line_commented(line: Seq<char>)
    requires
        forall|k: int| 0 <= k < line.len() ==> line[k] != '\n',
    ensures
        every_line_commented(comment_line(line)),
{
    let block = comment_line(line);
    assert forall|i: int| #[trigger] line_starts_at(block, i) implies block[i] == '#' by {
        if i > 0 {
            if line.len() > 0 && i >= 3 {
                assert(block[i - 1] == line[i - 3]);
            }
        }
    }
}

/// Every line of a comment block starts with `#`, and the block ends with
/// a line feed unless it is empty.
pub proof fn law_comment_lines(text: Seq<char>, blank: bool)
    ensures
        every_line_commented(comment_lines(text, blank)),
    decreases text.len(),
{
    if text.len() > 0 {
        lemma_line_end(text);
        let line = first_line(text);
        let rest = after_first_line(text);
        assert forall|k: int| 0 <= k < line.len() implies line[k] != '\n' by {
            assert(line[k] == text[k]);
        }
        lemma_comment_line_commented(line);
        if line.len() > 0 {
            law_comment_lines(rest, false);
            lemma_commented_concat(comment_line(line), comment_lines(rest, false));
        } else {
            law_comment_lines(rest, true);
            if !blank {
                lemma_commented_concat(comment_line(line), comment_lines(rest, true));
            }
        }
    }
}

/// Whether two empty rows stand at positions `i - 1` and `i`.
pub open spec fn empty_pair_at(rows: Seq<Seq<char>>, i: int) -> bool {
    0 < i < rows.len() && rows[i - 1].len() == 0 && rows[i].len() == 0
}

proof fn lemma_block_is_rows(text: Seq<char>, blank: bool)
    ensures
        comment_lines(text, blank) == rows_text(kept_rows(text_lines(text), blank)),
    decreases text.len(),
{
    if text.len() > 0 {
        lemma_line_end(text);
        let line = first_line(text);
        let rest = after_first_line(text);
        let lines = text_lines(text);
        assert(lines[0] == line);
        assert(lines.skip(1) =~= text_lines(rest));
        if line.len() > 0 {
            lemma_block_is_rows(rest, false);
            let rows = kept_rows(lines, blank);
            assert(rows.skip(1) =~= kept_rows(text_lines(rest), false));
        } else {
            lemma_block_is_rows(rest, true);
            if !blank {
                let rows = kept_rows(lines, blank);
                assert(rows.skip(1) =~= kept_rows(text_lines(rest), true));
            }
        }
    }
}

proof fn lemma_rows_apart(lines: Seq<Seq<char>>, blank: bool)
    ensures
        forall|i: int| !#[trigger] empty_pair_at(kept_rows(lines, blank), i),
        blank && kept_rows(lines, blank).len() > 0 ==> kept_rows(lines, blank)[0].len() > 0,
        without_empty(kept_rows(lines, blank)) == without_empty(lines),
    decreases lines.len(),
{
    if lines.len() > 0 {
        let rows = kept_rows(lines, blank);
        if lines[0].len() > 0 {
            lemma_rows_apart(lines.skip(1), false);
            let tail = kept_rows(lines.skip(1), false);
            assert(rows.skip(1) =~= tail);
            assert forall|i: int| !#[trigger] empty_pair_at(rows, i) by {
                if empty_pair_at(rows, i) {
                    if i >= 2 {
                        assert(rows[i - 1] == tail[i - 2]);
                        assert(rows[i] == tail[i - 1]);
                        assert(empty_pair_at(tail, i - 1));
                    }
                }
            }
        } else if blank {
            lemma_rows_apart(lines.skip(1), true);
        } else {
            lemma_rows_apart(lines.skip(1), true);
            let tail = kept_rows(lines.skip(1), true);
            assert(rows.skip(1) =~= tail);
            assert forall|i: int| !#[trigger] empty_pair_at(rows, i) by {
                if empty_pair_at(rows, i) {
                    if i >= 2 {
                        assert(rows[i - 1] == tail[i - 2]);
                        assert(rows[i] == tail[i - 1]);
                        assert(empty_pair_at(tail, i - 1));
                    } else {
                        assert(rows[1] == tail[0]);
                    }
                }
            }
        }
    }
}

/// A comment block holds the lines of its text as comment lines: every line
/// that is not empty, in order, and one line `#` for every run of empty
/// lines. No two lines `#` follow each other.
pub proof fn law_comment_block_rows(text: Seq<char>)
    ensures
        comment_block(text) == rows_text(kept_rows(text_lines(text), false)),
        forall|i: int| !#[trigger] empty_pair_at(kept_rows(text_lines(text), false), i),
        without_empty(kept_rows(text_lines(text), false)) == without_empty(text_lines(text)),
{
    lemma_block_is_rows(text, false);
    lemma_rows_apart(text_lines(text), false);
}

/// Concatenation may be regrouped.
pub proof fn lemma_regroup(a: Seq<char>, b: Seq<char>, c: Seq<char>)
    ensures
        a + b + c == a + (b + c),
{
    assert(a + b + c =~= a + (b + c));
}

/// A registered comment stands directly above what it annotates: the text
/// written for a key, a placeholder or a header at a path with a comment is
/// what was there, then the whole comment block, every line of it starting
/// with `#`, then the line itself.
pub proof fn law_comment_directly_above(
    acc: Seq<char>,
    key: Seq<char>,
    value: DatumView,
    index: Index,
    path: Seq<Seq<char>>,
)
    ensures
        every_line_commented(comment_block(index.comments[path.push(key)])),
        every_line_commented(comment_block(index.comments[path])),
        index.comments.contains_key(path.push(key)) ==> key_line(
            acc,
            key,
            value,
            index.comments,
            index.formats,
            path,
        ) == acc + comment_block(index.comments[path.push(key)]) + (toml_key(key) + " = "@
            + value_text(value, index.comments, index.formats, path.push(key)) + "\n"@),
        index.comments.contains_key(path) ==> placeholder(acc, path, index) == acc + comment_block(
            index.comments[path],
        ) + ("# "@ + toml_key(path.last()) + " = ...\n"@),
        index.comments.contains_key(path) ==> section_header(acc, index.comments, path)
            == separated(acc) + comment_block(index.comments[path]) + ("["@ + encoded_path(path)
            + "]\n"@),
        index.comments.contains_key(path) ==> array_header(acc, index.comments, path)
            == separated(acc) + comment_block(index.comments[path]) + ("[["@ + encoded_path(path)
            + "]]\n"@),
{
    law_comment_lines(index.comments[path.push(key)], false);
    law_comment_lines(index.comments[path], false);
    if index.comments.contains_key(path.push(key)) {
        let start = acc + comment_block(index.comments[path.push(key)]);
        let text = value_text(value, index.comments, index.formats, path.push(key));
        lemma_regroup(start, toml_key(key), " = "@);
        lemma_regroup(start, toml_key(key) + " = "@, text);
        lemma_regroup(start, toml_key(key) + " = "@ + text, "\n"@);
    }
    if index.comments.contains_key(path) {
        let start = acc + comment_block(index.comments[path]);
        lemma_regroup(start, "# "@, toml_key(path.last()));
        lemma_regroup(start, "# "@ + toml_key(path.last()), " = ...\n"@);
        let begun = separated(acc) + comment_block(index.comments[path]);
        lemma_regroup(begun, "["@, encoded_path(path));
        lemma_regroup(begun, "["@ + encoded_path(path), "]\n"@);
        lemma_regroup(begun, "[["@, encoded_path(path));
        lemma_regroup(begun, "[["@ + encoded_path(path), "]]\n"@);
    }
}

} // verus!
