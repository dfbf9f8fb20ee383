//! Blank lines: a document never holds three line feeds in a row, and every
//! section header in it but the one that opens the document stands behind
//! exactly one empty line, at whatever depth its table lies.
//!
//! Both are statements about the whole document, so the layout is followed
//! with the text written so far in hand. The texts that the renderer copies
//! from elsewhere (encoded keys and strings, float literals, block forms)
//! can hold anything, so the statements are made for documents whose copied
//! texts are calm: they neither start nor end with a line feed and hold no
//! three in a row.

use crate::calm::{
    calm_child, calm_child_dotted, calm_children, calm_dotted_child, calm_entries, calm_entry,
    calm_flat, calm_key, calm_leaf, calm_path, calm_placeholders, calm_table, calm_value,
};
use crate::comment::{
    after_first_line, comment_block, comment_line, comment_lines, first_line, lemma_line_end,
    with_comment,
};
use crate::datum::DatumView;
use crate::directive::{Directive, directive_at};
use crate::layout::{
    absent_optional, array_header, array_items_text, array_tables_text, child_dotted_text,
    child_flat_text, dotted_key, dotted_lines, encoded_path, ends_with_blank_line, flatten_text,
    Index, inline_items, inline_keys_text, inline_table_line, is_section, key_line,
    keys_of_kind, Kind,
    kind_of, lemma_keys_of_kind, nested_table_text, nested_tables_text, placeholder,
    placeholders_text, plain_line, root_comment, section_header, separated, table_text,
    value_text,
};
use crate::text::{inner, join, no_feed, no_triple, triple_at};
use crate::writer::{boolean_text, digit, digits, integer_text, toml_key};
use vstd::prelude::*;

verus! {

/// Whether `text` ends a line and does nothing else: its last character is
/// its only line feed.
pub open spec fn ends_line(text: Seq<char>) -> bool {
    &&& text.len() > 0
    &&& text.last() == '\n'
    &&& forall|k: int| 0 <= k < text.len() - 1 ==> text[k] != '\n'
}

/// What holds of the text written so far: it has no three line feeds in a
/// row; it ends in the middle of a line exactly when `open`; and with `lead`
/// it does not start with a line feed.
pub open spec fn written(acc: Seq<char>, lead: bool, open: bool) -> bool {
    &&& no_triple(acc)
    &&& acc.len() > 0 ==> (acc.last() != '\n') == open
    &&& acc.len() == 0 ==> !open
    &&& lead && acc.len() > 0 ==> acc[0] != '\n'
}

/// Whether `text` is a run of whole lines that starts with none empty and
/// ends with none empty.
pub open spec fn whole_lines(text: Seq<char>) -> bool {
    written(text, true, false) && !ends_with_blank_line(text)
}

pub(crate) proof fn lemma_no_feed(text: Seq<char>)
    requires
        forall|k: int| 0 <= k < text.len() ==> text[k] != '\n',
    ensures
        inner(text),
{
    assert forall|i: int| !#[trigger] triple_at(text, i) by {}
}

proof fn lemma_add_inner(acc: Seq<char>, x: Seq<char>, lead: bool, open: bool)
    requires
        written(acc, lead, open),
        inner(x),
    ensures
        written(acc + x, lead, open || x.len() > 0),
{
    if x.len() == 0 {
        assert(acc + x =~= acc);
    } else {
        let t = acc + x;
        assert forall|i: int| !#[trigger] triple_at(t, i) by {
            if triple_at(t, i) {
                if i + 2 < acc.len() {
                    assert(triple_at(acc, i));
                } else if i >= acc.len() {
                    assert(triple_at(x, i - acc.len()));
                } else {
                    assert(t[acc.len() as int] == x[0]);
                }
            }
        }
        assert(t.last() == x.last());
    }
}

proof fn lemma_add_line(acc: Seq<char>, line: Seq<char>, lead: bool, open: bool)
    requires
        written(acc, lead, open),
        ends_line(line),
        open || line.len() >= 2,
    ensures
        written(acc + line, lead, false),
{
    let t = acc + line;
    assert forall|i: int| !#[trigger] triple_at(t, i) by {
        if triple_at(t, i) {
            if i + 2 < acc.len() {
                assert(triple_at(acc, i));
            } else if i >= acc.len() {
                assert(t[i] == line[i - acc.len()]);
            } else if line.len() >= 2 {
                assert(t[acc.len() as int] == line[0]);
            } else {
                assert(t[acc.len() - 1] == acc.last());
            }
        }
    }
    assert(t.last() == line.last());
}

proof fn lemma_add_block(acc: Seq<char>, block: Seq<char>, lead: bool)
    requires
        written(acc, lead, false),
        written(block, true, false),
    ensures
        written(acc + block, lead, false),
{
    if block.len() == 0 {
        assert(acc + block =~= acc);
    } else {
        let t = acc + block;
        assert forall|i: int| !#[trigger] triple_at(t, i) by {
            if triple_at(t, i) {
                if i + 2 < acc.len() {
                    assert(triple_at(acc, i));
                } else if i >= acc.len() {
                    assert(triple_at(block, i - acc.len()));
                } else {
                    assert(t[acc.len() as int] == block[0]);
                }
            }
        }
        assert(t.last() == block.last());
    }
}

proof fn lemma_blank_line(text: Seq<char>)
    ensures
        ends_with_blank_line(text) <==> text.len() >= 2 && text[text.len() - 1] == '\n' && text[
            text.len() - 2] == '\n',
{
    let pair = seq!['\n', '\n'];
    if text.len() >= 2 {
        let tail = text.subrange(text.len() - 2, text.len() as int);
        assert(tail[0] == text[text.len() - 2]);
        assert(tail[1] == text[text.len() - 1]);
        if text[text.len() - 1] == '\n' && text[text.len() - 2] == '\n' {
            assert(pair =~= tail);
        }
        if pair =~= tail {
            assert(pair[0] == tail[0]);
            assert(pair[1] == tail[1]);
        }
    }
}

proof fn lemma_feed()
    ensures
        "\n"@ == seq!['\n'],
        ends_line("\n"@),
        "\n"@.len() == 1,
{
    reveal_strlit("\n");
    assert("\n"@ =~= seq!['\n']);
}

proof fn lemma_separated(acc: Seq<char>, lead: bool)
    requires
        written(acc, lead, false),
    ensures
        written(separated(acc), lead, false),
        acc.len() == 0 ==> separated(acc) == acc,
        acc.len() > 0 ==> ends_with_blank_line(separated(acc)),
{
    lemma_feed();
    lemma_blank_line(acc);
    if acc.len() > 0 && !ends_with_blank_line(acc) {
        let t = acc + "\n"@;
        assert forall|i: int| !#[trigger] triple_at(t, i) by {
            if triple_at(t, i) {
                if i + 2 < acc.len() {
                    assert(triple_at(acc, i));
                } else {
                    assert(t[i] == acc[i]);
                    assert(t[i + 1] == acc[i + 1]);
                }
            }
        }
        lemma_blank_line(t);
        assert(t[t.len() - 2] == acc.last());
    }
}

proof fn lemma_whole_lines_concat(a: Seq<char>, b: Seq<char>)
    requires
        whole_lines(a),
        whole_lines(b),
    ensures
        whole_lines(a + b),
{
    lemma_add_block(a, b, true);
    if b.len() == 0 {
        assert(a + b =~= a);
    } else {
        lemma_blank_line(b);
        lemma_blank_line(a + b);
        assert((a + b)[a.len() + b.len() - 2] == b[b.len() - 2]);
        assert((a + b)[a.len() + b.len() - 1] == b[b.len() - 1]);
    }
}

proof fn lemma_comment_line_whole(line: Seq<char>)
    requires
        forall|k: int| 0 <= k < line.len() ==> line[k] != '\n',
    ensures
        whole_lines(comment_line(line)),
{
    let block = comment_line(line);
    assert forall|k: int| 0 <= k < block.len() - 1 implies block[k] != '\n' by {
        if line.len() > 0 && k >= 2 {
            assert(block[k] == line[k - 2]);
        }
    }
    assert forall|i: int| !#[trigger] triple_at(block, i) by {}
    lemma_blank_line(block);
}

/// A comment block is a run of whole lines.
pub proof fn lemma_comment_lines_whole(text: Seq<char>, blank: bool)
    ensures
        whole_lines(comment_lines(text, blank)),
    decreases text.len(),
{
    if text.len() > 0 {
        lemma_line_end(text);
        let line = first_line(text);
        let rest = after_first_line(text);
        assert forall|k: int| 0 <= k < line.len() implies line[k] != '\n' by {
            assert(line[k] == text[k]);
        }
        lemma_comment_line_whole(line);
        if line.len() > 0 {
            lemma_comment_lines_whole(rest, false);
            lemma_whole_lines_concat(comment_line(line), comment_lines(rest, false));
        } else {
            lemma_comment_lines_whole(rest, true);
            if !blank {
                lemma_whole_lines_concat(comment_line(line), comment_lines(rest, true));
            }
        }
    } else {
        let none = comment_lines(text, blank);
        assert forall|i: int| !#[trigger] triple_at(none, i) by {}
        lemma_blank_line(none);
    }
}

proof fn lemma_with_comment(
    acc: Seq<char>,
    comments: Map<Seq<Seq<char>>, Seq<char>>,
    path: Seq<Seq<char>>,
    lead: bool,
)
    requires
        written(acc, lead, false),
    ensures
        written(with_comment(acc, comments, path), lead, false),
{
    if comments.contains_key(path) {
        lemma_comment_lines_whole(comments[path], false);
        lemma_add_block(acc, comment_block(comments[path]), lead);
    }
}

pub(crate) proof fn lemma_marks()
    ensures
        inner(" = "@) && " = "@.len() > 0,
        inner("# "@) && "# "@.len() > 0,
        inner("."@) && "."@.len() > 0,
        inner("["@) && "["@.len() > 0,
        inner("[["@) && "[["@.len() > 0,
        inner(" = { "@) && " = { "@.len() > 0,
        inner(", "@),
{
    reveal_strlit(" = ");
    reveal_strlit("# ");
    reveal_strlit(".");
    reveal_strlit("[");
    reveal_strlit("[[");
    reveal_strlit(" = { ");
    reveal_strlit(", ");
    lemma_no_feed(" = "@);
    lemma_no_feed("# "@);
    lemma_no_feed("."@);
    lemma_no_feed("["@);
    lemma_no_feed("[["@);
    lemma_no_feed(" = { "@);
    lemma_no_feed(", "@);
}

proof fn lemma_line_ends()
    ensures
        ends_line(" = ...\n"@) && " = ...\n"@.len() >= 2,
        ends_line("]\n"@) && "]\n"@.len() >= 2,
        ends_line("]]\n"@) && "]]\n"@.len() >= 2,
        ends_line(" }\n"@) && " }\n"@.len() >= 2,
{
    reveal_strlit(" = ...\n");
    reveal_strlit("]\n");
    reveal_strlit("]]\n");
    reveal_strlit(" }\n");
}

pub(crate) proof fn lemma_value_marks()
    ensures
        inner("{ "@),
        inner(" }"@),
        inner("["@),
        inner("]"@),
        inner(", "@),
        inner(" = "@),
        inner("[\n  "@),
        inner(",\n  "@),
        inner(",\n]"@),
{
    reveal_strlit("{ ");
    reveal_strlit(" }");
    reveal_strlit("[");
    reveal_strlit("]");
    reveal_strlit(", ");
    reveal_strlit(" = ");
    reveal_strlit("[\n  ");
    reveal_strlit(",\n  ");
    reveal_strlit(",\n]");
    lemma_no_feed("{ "@);
    lemma_no_feed(" }"@);
    lemma_no_feed("["@);
    lemma_no_feed("]"@);
    lemma_no_feed(", "@);
    lemma_no_feed(" = "@);
    assert forall|i: int| !#[trigger] triple_at("[\n  "@, i) by {
        if triple_at("[\n  "@, i) {
            assert("[\n  "@[0] != '\n' && "[\n  "@[2] != '\n' && "[\n  "@[3] != '\n');
        }
    }
    assert forall|i: int| !#[trigger] triple_at(",\n  "@, i) by {
        if triple_at(",\n  "@, i) {
            assert(",\n  "@[0] != '\n' && ",\n  "@[2] != '\n' && ",\n  "@[3] != '\n');
        }
    }
    assert forall|i: int| !#[trigger] triple_at(",\n]"@, i) by {
        if triple_at(",\n]"@, i) {
            assert(",\n]"@[0] != '\n' && ",\n]"@[2] != '\n');
        }
    }
}

proof fn lemma_digit(d: int)
    ensures
        digit(d) != '\n',
{
    let all = seq!['0', '1', '2', '3', '4', '5', '6', '7', '8', '9'];
    let at = d % 10;
    assert(0 <= at < 10);
    assert(digit(d) == all[at]);
    assert(all[0] == '0' && all[1] == '1' && all[2] == '2' && all[3] == '3' && all[4] == '4');
    assert(all[5] == '5' && all[6] == '6' && all[7] == '7' && all[8] == '8' && all[9] == '9');
}

proof fn lemma_digits(n: int)
    requires
        n >= 0,
    ensures
        forall|k: int| 0 <= k < digits(n).len() ==> digits(n)[k] != '\n',
    decreases n,
{
    lemma_digit(n);
    if n >= 10 {
        lemma_digits(n / 10);
        lemma_digit(n % 10);
        let most = digits(n / 10);
        assert forall|k: int| 0 <= k < digits(n).len() implies digits(n)[k] != '\n' by {
            if k < most.len() {
                assert(digits(n)[k] == most[k]);
            }
        }
    }
}

/// The literal of an integer or of a boolean is calm.
pub(crate) proof fn lemma_plain_scalars(i: int, b: bool)
    ensures
        inner(integer_text(i)),
        inner(boolean_text(b)),
{
    if i < 0 {
        lemma_digits(-i);
    } else {
        lemma_digits(i);
    }
    lemma_no_feed(integer_text(i));
    lemma_no_feed(boolean_text(b));
}

pub(crate) proof fn lemma_inner_concat(a: Seq<char>, b: Seq<char>)
    requires
        inner(a),
        inner(b),
    ensures
        inner(a + b),
{
    if a.len() == 0 {
        assert(a + b =~= b);
    } else if b.len() == 0 {
        assert(a + b =~= a);
    } else {
        let t = a + b;
        assert forall|i: int| !#[trigger] triple_at(t, i) by {
            if triple_at(t, i) {
                if i + 2 < a.len() {
                    assert(triple_at(a, i));
                } else if i >= a.len() {
                    assert(triple_at(b, i - a.len()));
                } else {
                    assert(t[a.len() as int] == b[0]);
                }
            }
        }
        assert(t[0] == a[0]);
        assert(t.last() == b.last());
    }
}

pub(crate) proof fn lemma_join_inner(parts: Seq<Seq<char>>, sep: Seq<char>)
    requires
        inner(sep),
        forall|i: int| 0 <= i < parts.len() ==> inner(#[trigger] parts[i]),
    ensures
        inner(join(parts, sep)),
    decreases parts.len(),
{
    if parts.len() == 0 {
        lemma_no_feed(join(parts, sep));
    } else if parts.len() == 1 {
    } else {
        lemma_join_inner(parts.drop_last(), sep);
        lemma_inner_concat(join(parts.drop_last(), sep), sep);
        lemma_inner_concat(join(parts.drop_last(), sep) + sep, parts.last());
    }
}

proof fn lemma_encoded_path(path: Seq<Seq<char>>)
    requires
        calm_path(path),
    ensures
        inner(encoded_path(path)),
    decreases path.len(),
{
    if path.len() == 0 {
        lemma_no_feed(encoded_path(path));
    } else if path.len() == 1 {
        assert(calm_key(path[0]));
    } else {
        assert forall|i: int| 0 <= i < path.drop_last().len() implies calm_key(
            #[trigger] path.drop_last()[i],
        ) by {
            assert(path.drop_last()[i] == path[i]);
        }
        lemma_encoded_path(path.drop_last());
        lemma_no_feed(seq!['.']);
        lemma_inner_concat(encoded_path(path.drop_last()), seq!['.']);
        assert(calm_key(path[path.len() - 1]));
        lemma_inner_concat(encoded_path(path.drop_last()) + seq!['.'], toml_key(path.last()));
    }
}

proof fn lemma_child_path(path: Seq<Seq<char>>, key: Seq<char>)
    requires
        calm_path(path),
        calm_key(key),
    ensures
        calm_path(path.push(key)),
{
    assert forall|i: int| 0 <= i < path.push(key).len() implies calm_key(
        #[trigger] path.push(key)[i],
    ) by {
        if i < path.len() {
            assert(path.push(key)[i] == path[i]);
        }
    }
}

proof fn lemma_key_line(
    acc: Seq<char>,
    key: Seq<char>,
    value: DatumView,
    comments: Map<Seq<Seq<char>>, Seq<char>>,
    formats: Map<Seq<Seq<char>>, Seq<char>>,
    path: Seq<Seq<char>>,
    lead: bool,
)
    requires
        written(acc, lead, false),
        calm_key(key),
        calm_value(value, comments, formats, path.push(key)),
    ensures
        written(key_line(acc, key, value, comments, formats, path), lead, false),
{
    lemma_marks();
    lemma_feed();
    let a0 = with_comment(acc, comments, path.push(key));
    lemma_with_comment(acc, comments, path.push(key), lead);
    let a1 = a0 + toml_key(key);
    lemma_add_inner(a0, toml_key(key), lead, false);
    let a2 = a1 + " = "@;
    lemma_add_inner(a1, " = "@, lead, toml_key(key).len() > 0);
    let text = value_text(value, comments, formats, path.push(key));
    lemma_add_inner(a2, text, lead, true);
    lemma_add_line(a2 + text, "\n"@, lead, true);
}

proof fn lemma_plain_line(
    acc: Seq<char>,
    key: Seq<char>,
    value: DatumView,
    comments: Map<Seq<Seq<char>>, Seq<char>>,
    formats: Map<Seq<Seq<char>>, Seq<char>>,
    path: Seq<Seq<char>>,
    lead: bool,
)
    requires
        written(acc, lead, false),
        inner(key),
        calm_value(value, comments, formats, path),
    ensures
        written(plain_line(acc, key, value, comments, formats, path), lead, false),
{
    lemma_marks();
    lemma_feed();
    let a0 = with_comment(acc, comments, path);
    lemma_with_comment(acc, comments, path, lead);
    let a1 = a0 + key;
    lemma_add_inner(a0, key, lead, false);
    let a2 = a1 + " = "@;
    lemma_add_inner(a1, " = "@, lead, key.len() > 0);
    let text = value_text(value, comments, formats, path);
    lemma_add_inner(a2, text, lead, true);
    lemma_add_line(a2 + text, "\n"@, lead, true);
}

proof fn lemma_placeholder(acc: Seq<char>, field: Seq<Seq<char>>, index: Index, lead: bool)
    requires
        written(acc, lead, false),
        calm_key(field.last()),
    ensures
        written(placeholder(acc, field, index), lead, false),
{
    lemma_marks();
    lemma_line_ends();
    let a0 = with_comment(acc, index.comments, field);
    lemma_with_comment(acc, index.comments, field, lead);
    let a1 = a0 + "# "@;
    lemma_add_inner(a0, "# "@, lead, false);
    let a2 = a1 + toml_key(field.last());
    lemma_add_inner(a1, toml_key(field.last()), lead, true);
    lemma_add_line(a2, " = ...\n"@, lead, true);
}

proof fn lemma_header(
    acc: Seq<char>,
    comments: Map<Seq<Seq<char>>, Seq<char>>,
    path: Seq<Seq<char>>,
    lead: bool,
)
    requires
        written(acc, lead, false),
        calm_path(path),
    ensures
        written(section_header(acc, comments, path), lead, false),
        written(array_header(acc, comments, path), lead, false),
{
    lemma_marks();
    lemma_line_ends();
    lemma_separated(acc, lead);
    let a0 = with_comment(separated(acc), comments, path);
    lemma_with_comment(separated(acc), comments, path, lead);
    lemma_encoded_path(path);
    lemma_add_inner(a0, "["@, lead, false);
    lemma_add_inner(a0 + "["@, encoded_path(path), lead, true);
    lemma_add_line(a0 + "["@ + encoded_path(path), "]\n"@, lead, true);
    lemma_add_inner(a0, "[["@, lead, false);
    lemma_add_inner(a0 + "[["@, encoded_path(path), lead, true);
    lemma_add_line(a0 + "[["@ + encoded_path(path), "]]\n"@, lead, true);
}

proof fn lemma_inline_keys_text(
    acc: Seq<char>,
    entries: Seq<(Seq<char>, DatumView)>,
    keys: Seq<usize>,
    n: nat,
    index: Index,
    path: Seq<Seq<char>>,
    lead: bool,
)
    requires
        written(acc, lead, false),
        calm_entries(entries, index, path),
        forall|j: int|
            0 <= j < keys.len() ==> (#[trigger] keys[j]) < entries.len() && kind_of(
                entries[keys[j] as int].1,
            ) == Kind::Inline,
    ensures
        written(inline_keys_text(acc, entries, keys, n, index, path), lead, false),
    decreases n,
{
    if n == 0 || n > keys.len() {
    } else {
        lemma_inline_keys_text(acc, entries, keys, (n - 1) as nat, index, path, lead);
        let before = inline_keys_text(acc, entries, keys, (n - 1) as nat, index, path);
        let at = keys[n - 1] as int;
        assert(calm_entry(entries[at].0, entries[at].1, index, path));
        lemma_key_line(
            before,
            entries[at].0,
            entries[at].1,
            index.comments,
            index.formats,
            path,
            lead,
        );
    }
}

proof fn lemma_placeholders_text(
    acc: Seq<char>,
    entries: Seq<(Seq<char>, DatumView)>,
    n: nat,
    index: Index,
    path: Seq<Seq<char>>,
    lead: bool,
)
    requires
        written(acc, lead, false),
        calm_placeholders(entries, index, path),
    ensures
        written(placeholders_text(acc, entries, n, index, path), lead, false),
    decreases n,
{
    if n == 0 || n > index.all_fields.len() {
    } else {
        lemma_placeholders_text(acc, entries, (n - 1) as nat, index, path, lead);
        let before = placeholders_text(acc, entries, (n - 1) as nat, index, path);
        let field = index.all_fields[n - 1];
        if absent_optional(field, entries, index, path) {
            assert(calm_key(field.last()));
            lemma_placeholder(before, field, index, lead);
        }
    }
}

proof fn lemma_dotted_lines(
    acc: Seq<char>,
    prefix: Seq<char>,
    entries: Seq<(Seq<char>, DatumView)>,
    n: nat,
    comments: Map<Seq<Seq<char>>, Seq<char>>,
    formats: Map<Seq<Seq<char>>, Seq<char>>,
    path: Seq<Seq<char>>,
    lead: bool,
)
    requires
        written(acc, lead, false),
        inner(prefix),
        calm_children(entries, comments, formats, path),
    ensures
        written(dotted_lines(acc, prefix, entries, n, comments, formats, path), lead, false),
    decreases n,
{
    if n == 0 || n > entries.len() {
    } else {
        lemma_dotted_lines(acc, prefix, entries, (n - 1) as nat, comments, formats, path, lead);
        let before = dotted_lines(acc, prefix, entries, (n - 1) as nat, comments, formats, path);
        let entry = entries[n - 1];
        assert(calm_child(entry.0, entry.1, comments, formats, path));
        lemma_marks();
        lemma_feed();
        let a0 = with_comment(before, comments, path.push(entry.0));
        lemma_with_comment(before, comments, path.push(entry.0), lead);
        lemma_add_inner(a0, prefix, lead, false);
        lemma_add_inner(a0 + prefix, "."@, lead, prefix.len() > 0);
        lemma_add_inner(a0 + prefix + "."@, toml_key(entry.0), lead, true);
        lemma_add_inner(a0 + prefix + "."@ + toml_key(entry.0), " = "@, lead, true);
        let text = value_text(entry.1, comments, formats, path.push(entry.0));
        lemma_add_inner(a0 + prefix + "."@ + toml_key(entry.0) + " = "@, text, lead, true);
        lemma_add_line(
            a0 + prefix + "."@ + toml_key(entry.0) + " = "@ + text,
            "\n"@,
            lead,
            true,
        );
    }
}

proof fn lemma_dotted_key(prefix: Seq<char>, key: Seq<char>)
    requires
        inner(prefix),
        calm_key(key),
    ensures
        inner(dotted_key(prefix, key)),
{
    lemma_marks();
    lemma_inner_concat(prefix, "."@);
    lemma_inner_concat(prefix + "."@, toml_key(key));
}

proof fn lemma_flatten_text(
    acc: Seq<char>,
    prefix: Seq<char>,
    entries: Seq<(Seq<char>, DatumView)>,
    n: nat,
    comments: Map<Seq<Seq<char>>, Seq<char>>,
    formats: Map<Seq<Seq<char>>, Seq<char>>,
    path: Seq<Seq<char>>,
    lead: bool,
)
    requires
        written(acc, lead, false),
        inner(prefix),
        calm_flat(entries, comments, formats, path),
    ensures
        written(flatten_text(acc, prefix, entries, n, comments, formats, path), lead, false),
    decreases entries, n,
{
    if n == 0 || n > entries.len() {
    } else {
        lemma_flatten_text(acc, prefix, entries, (n - 1) as nat, comments, formats, path, lead);
        let before = flatten_text(acc, prefix, entries, (n - 1) as nat, comments, formats, path);
        let entry = entries[n - 1];
        assert(calm_leaf(entry.0, entry.1, comments, formats, path));
        lemma_dotted_key(prefix, entry.0);
        match entry.1 {
            DatumView::Table(nested) => {
                lemma_flatten_text(
                    before,
                    dotted_key(prefix, entry.0),
                    nested,
                    nested.len(),
                    comments,
                    formats,
                    path.push(entry.0),
                    lead,
                );
            },
            _ => {
                lemma_plain_line(
                    before,
                    dotted_key(prefix, entry.0),
                    entry.1,
                    comments,
                    formats,
                    path.push(entry.0),
                    lead,
                );
            },
        }
    }
}

proof fn lemma_child_dotted_text(
    acc: Seq<char>,
    entries: Seq<(Seq<char>, DatumView)>,
    n: nat,
    comments: Map<Seq<Seq<char>>, Seq<char>>,
    formats: Map<Seq<Seq<char>>, Seq<char>>,
    path: Seq<Seq<char>>,
    lead: bool,
)
    requires
        written(acc, lead, false),
        calm_child_dotted(entries, comments, formats, path),
    ensures
        written(child_dotted_text(acc, entries, n, comments, formats, path), lead, false),
    decreases n,
{
    if n == 0 || n > entries.len() {
    } else {
        lemma_child_dotted_text(acc, entries, (n - 1) as nat, comments, formats, path, lead);
        let before = child_dotted_text(acc, entries, (n - 1) as nat, comments, formats, path);
        let entry = entries[n - 1];
        assert(calm_dotted_child(entry.0, entry.1, comments, formats, path));
        match entry.1 {
            DatumView::Table(nested) => {
                lemma_dotted_lines(
                    before,
                    toml_key(entry.0),
                    nested,
                    nested.len(),
                    comments,
                    formats,
                    path.push(entry.0),
                    lead,
                );
            },
            _ => {
                lemma_key_line(before, entry.0, entry.1, comments, formats, path, lead);
            },
        }
    }
}

proof fn lemma_child_flat_text(
    acc: Seq<char>,
    entries: Seq<(Seq<char>, DatumView)>,
    n: nat,
    comments: Map<Seq<Seq<char>>, Seq<char>>,
    formats: Map<Seq<Seq<char>>, Seq<char>>,
    path: Seq<Seq<char>>,
    lead: bool,
)
    requires
        written(acc, lead, false),
        calm_flat(entries, comments, formats, path),
    ensures
        written(child_flat_text(acc, entries, n, comments, formats, path), lead, false),
    decreases n,
{
    if n == 0 || n > entries.len() {
    } else {
        lemma_child_flat_text(acc, entries, (n - 1) as nat, comments, formats, path, lead);
        let before = child_flat_text(acc, entries, (n - 1) as nat, comments, formats, path);
        let entry = entries[n - 1];
        assert(calm_leaf(entry.0, entry.1, comments, formats, path));
        match entry.1 {
            DatumView::Table(nested) => {
                lemma_flatten_text(
                    before,
                    toml_key(entry.0),
                    nested,
                    nested.len(),
                    comments,
                    formats,
                    path.push(entry.0),
                    lead,
                );
            },
            _ => {
                lemma_key_line(before, entry.0, entry.1, comments, formats, path, lead);
            },
        }
    }
}

proof fn lemma_inline_table_line(
    acc: Seq<char>,
    key: Seq<char>,
    entries: Seq<(Seq<char>, DatumView)>,
    comments: Map<Seq<Seq<char>>, Seq<char>>,
    formats: Map<Seq<Seq<char>>, Seq<char>>,
    path: Seq<Seq<char>>,
    lead: bool,
)
    requires
        written(acc, lead, false),
        calm_key(key),
        calm_children(entries, comments, formats, path),
    ensures
        written(inline_table_line(acc, key, entries, comments, formats, path), lead, false),
{
    lemma_marks();
    lemma_line_ends();
    let items = inline_items(entries, comments, formats, path);
    assert forall|i: int| 0 <= i < items.len() implies inner(#[trigger] items[i]) by {
        assert(calm_child(entries[i].0, entries[i].1, comments, formats, path));
        let text = value_text(entries[i].1, comments, formats, path.push(entries[i].0));
        lemma_inner_concat(toml_key(entries[i].0), " = "@);
        lemma_inner_concat(toml_key(entries[i].0) + " = "@, text);
    }
    lemma_join_inner(items, ", "@);
    let a0 = with_comment(acc, comments, path);
    lemma_with_comment(acc, comments, path, lead);
    lemma_add_inner(a0, toml_key(key), lead, false);
    lemma_add_inner(a0 + toml_key(key), " = { "@, lead, toml_key(key).len() > 0);
    lemma_add_inner(a0 + toml_key(key) + " = { "@, join(items, ", "@), lead, true);
    lemma_add_line(
        a0 + toml_key(key) + " = { "@ + join(items, ", "@),
        " }\n"@,
        lead,
        true,
    );
}

proof fn lemma_root_comment(index: Index, path: Seq<Seq<char>>)
    ensures
        written(root_comment(index, path), path.len() > 0, false),
{
    let none = Seq::<char>::empty();
    assert forall|i: int| !#[trigger] triple_at(none, i) by {}
    if path.len() == 0 && index.comments.contains_key(Seq::empty()) {
        lemma_feed();
        let block = comment_block(index.comments[Seq::empty()]);
        lemma_comment_lines_whole(index.comments[Seq::empty()], false);
        assert(none + block =~= block);
        let t = block + "\n"@;
        lemma_blank_line(block);
        assert forall|i: int| !#[trigger] triple_at(t, i) by {
            if triple_at(t, i) {
                if i + 2 < block.len() {
                    assert(triple_at(block, i));
                } else {
                    assert(t[i] == block[i]);
                    assert(t[i + 1] == block[i + 1]);
                }
            }
        }
        assert(t.last() == '\n');
    }
}

/// Whether a header written behind `acc` stands behind nothing, or behind
/// exactly one empty line.
pub open spec fn header_spaced(acc: Seq<char>) -> bool {
    let ready = separated(acc);
    acc.len() == 0 || (ends_with_blank_line(ready) && !(ready.len() >= 3 && ready[ready.len() - 3]
        == '\n'))
}

/// Whether every header that the body of the table `value` adds to `acc`
/// stands behind nothing or behind exactly one empty line, where `acc` is
/// the document written before that body.
pub open spec fn sections_spaced(
    acc: Seq<char>,
    value: DatumView,
    index: Index,
    path: Seq<Seq<char>>,
) -> bool
    decreases value, 0nat,
{
    match value {
        DatumView::Table(entries) => {
            let inline = keys_of_kind(entries, Kind::Inline, entries.len());
            let nested = keys_of_kind(entries, Kind::Nested, entries.len());
            let arrays = keys_of_kind(entries, Kind::ArrayOfTables, entries.len());
            let a1 = inline_keys_text(
                acc + root_comment(index, path),
                entries,
                inline,
                inline.len(),
                index,
                path,
            );
            let a2 = placeholders_text(a1, entries, index.all_fields.len(), index, path);
            let a3 = nested_tables_text(a2, entries, nested, nested.len(), false, index, path);
            let a4 = nested_tables_text(a3, entries, nested, nested.len(), true, index, path);
            &&& nested_spaced(a3, entries, nested, nested.len(), index, path)
            &&& arrays_spaced(a4, entries, arrays, arrays.len(), index, path)
        },
        _ => true,
    }
}

/// Whether the header of the nested table `child`, written behind `acc`,
/// and every header below it are spaced. A table that is laid out as key
/// lines has no header.
pub open spec fn nested_table_spaced(
    acc: Seq<char>,
    key: Seq<char>,
    child: DatumView,
    index: Index,
    path: Seq<Seq<char>>,
) -> bool
    decreases child, 1nat,
{
    let here = path.push(key);
    let directive = directive_at(index.formats, here);
    child is Table && is_section(directive) ==> {
        &&& header_spaced(acc)
        &&& !(directive is ChildDotted || directive is ChildDottedNested) ==> sections_spaced(
            section_header(acc, index.comments, here),
            child,
            index,
            here,
        )
    }
}

/// Whether the headers of the first `n` listed nested tables that get a
/// section, written one after the other behind `acc`, are spaced.
pub open spec fn nested_spaced(
    acc: Seq<char>,
    entries: Seq<(Seq<char>, DatumView)>,
    keys: Seq<usize>,
    n: nat,
    index: Index,
    path: Seq<Seq<char>>,
) -> bool
    decreases entries, n,
{
    if n == 0 || n > keys.len() {
        true
    } else {
        let before = nested_tables_text(acc, entries, keys, (n - 1) as nat, true, index, path);
        let at = keys[n - 1] as int;
        &&& nested_spaced(acc, entries, keys, (n - 1) as nat, index, path)
        &&& 0 <= at < entries.len() ==> nested_table_spaced(
            before,
            entries[at].0,
            entries[at].1,
            index,
            path,
        )
    }
}

/// Whether the headers of the first `n` elements of an array of tables,
/// written one after the other behind `acc`, and every header below them
/// are spaced.
pub open spec fn items_spaced(
    acc: Seq<char>,
    items: Seq<DatumView>,
    n: nat,
    index: Index,
    path: Seq<Seq<char>>,
) -> bool
    decreases items, n,
{
    if n == 0 || n > items.len() {
        true
    } else {
        let before = array_items_text(acc, items, (n - 1) as nat, index, path);
        &&& items_spaced(acc, items, (n - 1) as nat, index, path)
        &&& header_spaced(before)
        &&& sections_spaced(array_header(before, index.comments, path), items[n - 1], index, path)
    }
}

/// Whether the headers of the first `n` listed arrays of tables, written
/// one after the other behind `acc`, and every header below them are
/// spaced.
pub open spec fn arrays_spaced(
    acc: Seq<char>,
    entries: Seq<(Seq<char>, DatumView)>,
    keys: Seq<usize>,
    n: nat,
    index: Index,
    path: Seq<Seq<char>>,
) -> bool
    decreases entries, n,
{
    if n == 0 || n > keys.len() {
        true
    } else {
        let before = array_tables_text(acc, entries, keys, (n - 1) as nat, index, path);
        let at = keys[n - 1] as int;
        &&& arrays_spaced(acc, entries, keys, (n - 1) as nat, index, path)
        &&& 0 <= at < entries.len() ==> (entries[at].1 matches DatumView::Array(items)
            ==> items_spaced(before, items, items.len(), index, path.push(entries[at].0)))
    }
}

proof fn lemma_header_spaced(acc: Seq<char>, lead: bool)
    requires
        written(acc, lead, false),
    ensures
        header_spaced(acc),
{
    lemma_separated(acc, lead);
    let ready = separated(acc);
    if acc.len() > 0 && ready.len() >= 3 && ready[ready.len() - 3] == '\n' {
        lemma_blank_line(ready);
        assert(triple_at(ready, ready.len() - 3));
    }
}

/// The body of a table whose copied texts are calm, added to a document
/// that ends a line and holds no three line feeds in a row, gives such a
/// document again, and every header in it is spaced.
pub proof fn lemma_table_text(
    acc: Seq<char>,
    value: DatumView,
    index: Index,
    path: Seq<Seq<char>>,
    lead: bool,
)
    requires
        written(acc, lead, false),
        path.len() == 0 ==> acc.len() == 0 && !lead,
        calm_table(value, index, path),
        calm_path(path),
    ensures
        written(table_text(acc, value, index, path), lead, false),
        sections_spaced(acc, value, index, path),
    decreases value, 0nat,
{
    match value {
        DatumView::Table(entries) => {
            assert(calm_entries(entries, index, path));
            let inline = keys_of_kind(entries, Kind::Inline, entries.len());
            let nested = keys_of_kind(entries, Kind::Nested, entries.len());
            let arrays = keys_of_kind(entries, Kind::ArrayOfTables, entries.len());
            lemma_keys_of_kind(entries, Kind::Inline, entries.len());
            lemma_keys_of_kind(entries, Kind::ArrayOfTables, entries.len());
            lemma_root_comment(index, path);
            let a0 = acc + root_comment(index, path);
            if path.len() == 0 {
                assert(a0 =~= root_comment(index, path));
            } else {
                assert(a0 =~= acc);
            }
            lemma_inline_keys_text(a0, entries, inline, inline.len(), index, path, lead);
            let a1 = inline_keys_text(a0, entries, inline, inline.len(), index, path);
            lemma_placeholders_text(a1, entries, index.all_fields.len(), index, path, lead);
            let a2 = placeholders_text(a1, entries, index.all_fields.len(), index, path);
            lemma_nested_tables_text(a2, entries, nested, nested.len(), false, index, path, lead);
            let a3 = nested_tables_text(a2, entries, nested, nested.len(), false, index, path);
            lemma_nested_tables_text(a3, entries, nested, nested.len(), true, index, path, lead);
            let a4 = nested_tables_text(a3, entries, nested, nested.len(), true, index, path);
            lemma_array_tables_text(a4, entries, arrays, arrays.len(), index, path, lead);
        },
        _ => {},
    }
}

proof fn lemma_nested_table_text(
    acc: Seq<char>,
    key: Seq<char>,
    child: DatumView,
    index: Index,
    path: Seq<Seq<char>>,
    lead: bool,
)
    requires
        written(acc, lead, false),
        calm_entry(key, child, index, path),
        calm_path(path),
    ensures
        written(nested_table_text(acc, key, child, index, path), lead, false),
        nested_table_spaced(acc, key, child, index, path),
    decreases child, 1nat,
{
    let here = path.push(key);
    lemma_child_path(path, key);
    lemma_header_spaced(acc, lead);
    match child {
        DatumView::Table(entries) => {
            lemma_header(acc, index.comments, here, lead);
            lemma_with_comment(acc, index.comments, here, lead);
            match directive_at(index.formats, here) {
                Directive::Inline => {
                    lemma_inline_table_line(
                        acc,
                        key,
                        entries,
                        index.comments,
                        index.formats,
                        here,
                        lead,
                    );
                },
                Directive::Dotted => {
                    lemma_dotted_lines(
                        with_comment(acc, index.comments, here),
                        toml_key(key),
                        entries,
                        entries.len(),
                        index.comments,
                        index.formats,
                        here,
                        lead,
                    );
                },
                Directive::DottedNested => {
                    lemma_flatten_text(
                        with_comment(acc, index.comments, here),
                        toml_key(key),
                        entries,
                        entries.len(),
                        index.comments,
                        index.formats,
                        here,
                        lead,
                    );
                },
                Directive::ChildDotted => {
                    lemma_child_dotted_text(
                        section_header(acc, index.comments, here),
                        entries,
                        entries.len(),
                        index.comments,
                        index.formats,
                        here,
                        lead,
                    );
                },
                Directive::ChildDottedNested => {
                    lemma_child_flat_text(
                        section_header(acc, index.comments, here),
                        entries,
                        entries.len(),
                        index.comments,
                        index.formats,
                        here,
                        lead,
                    );
                },
                _ => {
                    lemma_table_text(
                        section_header(acc, index.comments, here),
                        child,
                        index,
                        here,
                        lead,
                    );
                },
            }
        },
        _ => {},
    }
}

proof fn lemma_nested_tables_text(
    acc: Seq<char>,
    entries: Seq<(Seq<char>, DatumView)>,
    keys: Seq<usize>,
    n: nat,
    sections: bool,
    index: Index,
    path: Seq<Seq<char>>,
    lead: bool,
)
    requires
        written(acc, lead, false),
        calm_entries(entries, index, path),
        calm_path(path),
    ensures
        written(nested_tables_text(acc, entries, keys, n, sections, index, path), lead, false),
        sections ==> nested_spaced(acc, entries, keys, n, index, path),
    decreases entries, n,
{
    if n == 0 || n > keys.len() {
    } else {
        lemma_nested_tables_text(acc, entries, keys, (n - 1) as nat, sections, index, path, lead);
        let before = nested_tables_text(acc, entries, keys, (n - 1) as nat, sections, index, path);
        let at = keys[n - 1] as int;
        if 0 <= at < entries.len() {
            assert(calm_entry(entries[at].0, entries[at].1, index, path));
            lemma_nested_table_text(before, entries[at].0, entries[at].1, index, path, lead);
        }
    }
}

proof fn lemma_array_items_text(
    acc: Seq<char>,
    items: Seq<DatumView>,
    n: nat,
    index: Index,
    path: Seq<Seq<char>>,
    lead: bool,
)
    requires
        written(acc, lead, false),
        forall|i: int| 0 <= i < items.len() ==> calm_table(#[trigger] items[i], index, path),
        calm_path(path),
        path.len() > 0,
    ensures
        written(array_items_text(acc, items, n, index, path), lead, false),
        items_spaced(acc, items, n, index, path),
    decreases items, n,
{
    if n == 0 || n > items.len() {
    } else {
        lemma_array_items_text(acc, items, (n - 1) as nat, index, path, lead);
        let before = array_items_text(acc, items, (n - 1) as nat, index, path);
        lemma_header(before, index.comments, path, lead);
        lemma_header_spaced(before, lead);
        assert(calm_table(items[n - 1], index, path));
        lemma_table_text(
            array_header(before, index.comments, path),
            items[n - 1],
            index,
            path,
            lead,
        );
    }
}

proof fn lemma_array_tables_text(
    acc: Seq<char>,
    entries: Seq<(Seq<char>, DatumView)>,
    keys: Seq<usize>,
    n: nat,
    index: Index,
    path: Seq<Seq<char>>,
    lead: bool,
)
    requires
        written(acc, lead, false),
        calm_entries(entries, index, path),
        calm_path(path),
        forall|j: int|
            0 <= j < keys.len() ==> (#[trigger] keys[j]) < entries.len() && kind_of(
                entries[keys[j] as int].1,
            ) == Kind::ArrayOfTables,
    ensures
        written(array_tables_text(acc, entries, keys, n, index, path), lead, false),
        arrays_spaced(acc, entries, keys, n, index, path),
    decreases entries, n,
{
    if n == 0 || n > keys.len() {
    } else {
        lemma_array_tables_text(acc, entries, keys, (n - 1) as nat, index, path, lead);
        let before = array_tables_text(acc, entries, keys, (n - 1) as nat, index, path);
        let at = keys[n - 1] as int;
        assert(calm_entry(entries[at].0, entries[at].1, index, path));
        match entries[at].1 {
            DatumView::Array(items) => {
                lemma_child_path(path, entries[at].0);
                lemma_array_items_text(
                    before,
                    items,
                    items.len(),
                    index,
                    path.push(entries[at].0),
                    lead,
                );
            },
            _ => {},
        }
    }
}

/// The document rendered for a value whose copied texts are calm holds no
/// three line feeds in a row, and it ends with a line feed unless it is
/// empty.
pub proof fn law_no_three_line_feeds(
    acc: Seq<char>,
    value: DatumView,
    index: Index,
    path: Seq<Seq<char>>,
)
    requires
        acc.len() == 0,
        calm_table(value, index, path),
        calm_path(path),
    ensures
        no_triple(table_text(acc, value, index, path)),
        table_text(acc, value, index, path).len() > 0 ==> table_text(
            acc,
            value,
            index,
            path,
        ).last() == '\n',
{
    assert forall|i: int| !#[trigger] triple_at(acc, i) by {}
    lemma_table_text(acc, value, index, path, false);
}

/// In the document rendered for a value whose copied texts are calm, every
/// section header, `[..]` or `[[..]]` at any depth, stands behind exactly
/// one empty line, unless nothing at all is written before it.
pub proof fn law_one_empty_line_before_every_section(
    value: DatumView,
    index: Index,
    path: Seq<Seq<char>>,
)
    requires
        calm_table(value, index, path),
        calm_path(path),
    ensures
        sections_spaced(Seq::empty(), value, index, path),
{
    let none = Seq::<char>::empty();
    assert forall|i: int| !#[trigger] triple_at(none, i) by {}
    lemma_table_text(none, value, index, path, false);
}

/// A section header is preceded by exactly one empty line, unless nothing
/// was written before it: behind text that ends a line and holds no three
/// line feeds in a row, the header's lines follow two line feeds and not
/// three; behind no text they come first.
pub proof fn law_one_blank_line_before_section(
    acc: Seq<char>,
    comments: Map<Seq<Seq<char>>, Seq<char>>,
    path: Seq<Seq<char>>,
    lead: bool,
)
    requires
        written(acc, lead, false),
    ensures
        section_header(acc, comments, path) == with_comment(separated(acc), comments, path)
            + "["@ + encoded_path(path) + "]\n"@,
        array_header(acc, comments, path) == with_comment(separated(acc), comments, path)
            + "[["@ + encoded_path(path) + "]]\n"@,
        header_spaced(acc),
        acc.len() == 0 ==> separated(acc).len() == 0,
        acc.len() > 0 ==> ends_with_blank_line(separated(acc)),
        no_triple(separated(acc)),
{
    lemma_separated(acc, lead);
    lemma_header_spaced(acc, lead);
}

} // verus!
