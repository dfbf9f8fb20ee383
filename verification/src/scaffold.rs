//! The whole pipeline: from a value, its schema and the caller's layout
//! preferences to the finished document.

use crate::calm::{calm_table, quiet_table, table_is_calm};
use crate::datum::{Datum, DatumView};
use crate::field_path::FieldPath;
use crate::format::format_with_comments;
use crate::index::PathMap;
use crate::layout::{Index, index_of, table_text};
use crate::schema::{
    extract_all_comments, extract_schema_info, extraction, extraction_with, SchemaNode,
    SchemaView,
};
use crate::spacing::{
    law_no_three_line_feeds, law_one_empty_line_before_every_section, sections_spaced,
};
use crate::text::{is_whitespace, no_triple, trim_end, trim_end_of, triple_at};
use vstd::prelude::*;

verus! {

/// The index with the caller's preferences laid over its directives: where
/// both name a path, the caller's tag stays.
pub open spec fn with_preferences(
    index: Index,
    preferences: Map<Seq<Seq<char>>, Seq<char>>,
) -> Index {
    index_of(
        index.comments,
        index.all_fields,
        index.optional_fields,
        index.formats.union_prefer_right(preferences),
    )
}

/// A document body made into a file: trailing whitespace is dropped and one
/// line feed ends it.
pub open spec fn finished(body: Seq<char>) -> Seq<char> {
    trim_end(body) + "\n"@
}

/// The document for `value`, documented by `schema` and laid out by
/// `preferences`.
pub open spec fn scaffold_text(
    value: DatumView,
    schema: SchemaView,
    preferences: Map<Seq<Seq<char>>, Seq<char>>,
) -> Seq<char> {
    finished(
        table_text(
            Seq::empty(),
            value,
            with_preferences(extraction(schema, Seq::empty()), preferences),
            Seq::empty(),
        ),
    )
}

/// The document for `value`, documented by a schema of the older dialect.
pub open spec fn template_text(value: DatumView, schema: SchemaView) -> Seq<char> {
    finished(
        table_text(
            Seq::empty(),
            value,
            extraction_with(schema, Seq::empty(), "definitions"@, "#/definitions/"@),
            Seq::empty(),
        ),
    )
}

/// Ends a document body: drops its trailing whitespace and appends one line
/// feed. The file ends with exactly that one line feed, and where the body
/// held no three line feeds in a row, neither does the file.
pub fn finish_document(body: &str) -> (text: String)
    ensures
        text@ == finished(body@),
        text@.last() == '\n',
        text@.len() >= 2 ==> text@[text@.len() - 2] != '\n' && !is_whitespace(
            text@[text@.len() - 2],
        ),
        no_triple(body@) ==> no_triple(text@),
{
    let mut text = trim_end_of(body);
    let ghost kept = text@;
    text.append("\n");
    proof {
        reveal_strlit("\n");
        assert(text@ =~= kept.push('\n'));
        if no_triple(body@) {
            assert forall|i: int| !#[trigger] triple_at(text@, i) by {
                if triple_at(text@, i) {
                    if i + 2 < kept.len() {
                        assert(kept =~= body@.subrange(0, kept.len() as int));
                        assert(triple_at(body@, i));
                    } else {
                        assert(text@[kept.len() - 1] == kept.last());
                    }
                }
            }
        }
    }
    text
}

/// Checks whether the document that [`to_scaffold`] gives for these inputs
/// copies calm texts only, which is when it is known to hold no three line
/// feeds in a row.
pub fn scaffold_is_calm(value: &Datum, schema: &SchemaNode, preferences: &PathMap) -> (r: bool)
    ensures
        r == calm_table(
            value@,
            with_preferences(extraction(schema@, Seq::empty()), preferences@),
            Seq::empty(),
        ),
{
    let root = FieldPath::new();
    let mut info = extract_schema_info(schema, &root);
    info.formats.extend(preferences);
    table_is_calm(
        value,
        &info.comments,
        &info.all_fields,
        &info.optional_fields,
        &info.formats,
        &root,
    )
}

/// Generates the commented document for `value`: extracts the index from
/// `schema`, lays the caller's `preferences` over it, renders the value from
/// the root and ends the file with a single line feed.
///
/// For a quiet value the document holds no three line feeds in a row, and
/// every section header in it stands behind exactly one empty line, unless
/// nothing is written before it. The same holds wherever every text that is
/// copied into the document is calm, which [`scaffold_is_calm`] tests.
pub fn to_scaffold(value: &Datum, schema: &SchemaNode, preferences: &PathMap) -> (text: String)
    ensures
        text@ == scaffold_text(value@, schema@, preferences@),
        text@.last() == '\n',
        text@.len() >= 2 ==> text@[text@.len() - 2] != '\n',
        ({
            let index = with_preferences(extraction(schema@, Seq::empty()), preferences@);
            quiet_table(value@, index, Seq::empty()) || calm_table(value@, index, Seq::empty())
                ==> no_triple(text@) && sections_spaced(Seq::empty(), value@, index, Seq::empty())
        }),
{
    let root = FieldPath::new();
    let mut info = extract_schema_info(schema, &root);
    info.formats.extend(preferences);
    let body = format_with_comments(
        value,
        &info.comments,
        &info.all_fields,
        &info.optional_fields,
        &info.formats,
        &root,
    );
    proof {
        let index = with_preferences(extraction(schema@, Seq::empty()), preferences@);
        if calm_table(value@, index, Seq::empty()) {
            law_no_three_line_feeds(Seq::empty(), value@, index, Seq::empty());
            law_one_empty_line_before_every_section(value@, index, Seq::empty());
        }
    }
    finish_document(body.as_str())
}

/// Generates the commented document for `value` from a schema of the older
/// dialect, whose definitions stand under `definitions`: extracts the index,
/// renders the value from the root and ends the file with a single line
/// feed. No layout directive applies.
///
/// For a quiet value the document holds no three line feeds in a row, and
/// every section header in it stands behind exactly one empty line, unless
/// nothing is written before it.
pub fn to_template(value: &Datum, schema: &SchemaNode) -> (text: String)
    ensures
        text@ == template_text(value@, schema@),
        text@.last() == '\n',
        text@.len() >= 2 ==> text@[text@.len() - 2] != '\n',
        ({
            let index = extraction_with(
                schema@,
                Seq::empty(),
                "definitions"@,
                "#/definitions/"@,
            );
            quiet_table(value@, index, Seq::empty()) ==> no_triple(text@) && sections_spaced(
                Seq::empty(),
                value@,
                index,
                Seq::empty(),
            )
        }),
{
    let root = FieldPath::new();
    let info = extract_all_comments(schema, &root);
    let body = format_with_comments(
        value,
        &info.comments,
        &info.all_fields,
        &info.optional_fields,
        &info.formats,
        &root,
    );
    finish_document(body.as_str())
}

} // verus!
