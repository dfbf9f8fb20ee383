//! Comment blocks: how the text registered for a path becomes `#` lines.

use crate::field_path::FieldPath;
use crate::index::PathMap;
use crate::text::{chars_of, push_char, push_range};
use vstd::prelude::*;

verus! {

/// Number of characters before the first line feed of `text`, or its length
/// where it has none.
pub open spec fn line_end(text: Seq<char>) -> int
    decreases text.len(),
{
    if text.len() == 0 || text[0] == '\n' {
        0
    } else {
        1 + line_end(text.skip(1))
    }
}

/// One comment line: `#` alone for an empty line, else `# ` and the line.
pub open spec fn comment_line(line: Seq<char>) -> Seq<char> {
    if line.len() == 0 {
        seq!['#', '\n']
    } else {
        seq!['#', ' '] + line + seq!['\n']
    }
}

/// The first line of a non-empty `text`: what stands before the first line
/// feed, without the carriage return that may precede that line feed.
pub open spec fn first_line(text: Seq<char>) -> Seq<char> {
    let n = line_end(text);
    if n < text.len() && n > 0 && text[n - 1] == '\r' {
        text.take(n - 1)
    } else {
        text.take(n)
    }
}

/// What follows the first line of `text` and its line feed.
pub open spec fn after_first_line(text: Seq<char>) -> Seq<char> {
    let n = line_end(text);
    if n < text.len() {
        text.skip(n + 1)
    } else {
        text.skip(n)
    }
}

/// The lines of `text` as comment lines, where `blank` says whether the
/// line before them was empty. An empty line that follows an empty line
/// gives nothing, so a run of empty lines gives one `#` line. A line feed at
/// the very end starts no further line.
pub open spec fn comment_lines(text: Seq<char>, blank: bool) -> Seq<char>
    decreases text.len(),
{
    if text.len() == 0 {
        Seq::empty()
    } else {
        proof {
            lemma_line_end(text);
        }
        let line = first_line(text);
        let rest = after_first_line(text);
        if line.len() > 0 {
            comment_line(line) + comment_lines(rest, false)
        } else if blank {
            comment_lines(rest, true)
        } else {
            comment_line(line) + comment_lines(rest, true)
        }
    }
}

/// The comment block for a registered text: every line that is not empty
/// as `# ` and the line, every run of empty lines as one line `#`.
pub open spec fn comment_block(text: Seq<char>) -> Seq<char> {
    comment_lines(text, false)
}

/// The lines of `text`: what stands between its line feeds, a carriage
/// return before a line feed left out. A line feed at the very end starts no
/// further line.
pub open spec fn text_lines(text: Seq<char>) -> Seq<Seq<char>>
    decreases text.len(),
{
    if text.len() == 0 {
        Seq::empty()
    } else {
        proof {
            lemma_line_end(text);
        }
        seq![first_line(text)] + text_lines(after_first_line(text))
    }
}

/// `lines` without every empty line that follows an empty line, where
/// `blank` says whether an empty line stood before them.
pub open spec fn kept_rows(lines: Seq<Seq<char>>, blank: bool) -> Seq<Seq<char>>
    decreases lines.len(),
{
    if lines.len() == 0 {
        Seq::empty()
    } else if lines[0].len() > 0 {
        seq![lines[0]] + kept_rows(lines.skip(1), false)
    } else if blank {
        kept_rows(lines.skip(1), true)
    } else {
        seq![lines[0]] + kept_rows(lines.skip(1), true)
    }
}

/// The rows written one after the other, each as a comment line.
pub open spec fn rows_text(rows: Seq<Seq<char>>) -> Seq<char>
    decreases rows.len(),
{
    if rows.len() == 0 {
        Seq::empty()
    } else {
        comment_line(rows[0]) + rows_text(rows.skip(1))
    }
}

/// The lines that are not empty, in order.
pub open spec fn without_empty(lines: Seq<Seq<char>>) -> Seq<Seq<char>>
    decreases lines.len(),
{
    if lines.len() == 0 {
        Seq::empty()
    } else if lines[0].len() > 0 {
        seq![lines[0]] + without_empty(lines.skip(1))
    } else {
        without_empty(lines.skip(1))
    }
}

/// `acc` followed by the comment block registered at `path`, if any.
pub open spec fn with_comment(
    acc: Seq<char>,
    comments: Map<Seq<Seq<char>>, Seq<char>>,
    path: Seq<Seq<char>>,
) -> Seq<char> {
    if comments.contains_key(path) {
        acc + comment_block(comments[path])
    } else {
        acc
    }
}

/// The line end lies within the text, and no line feed stands before it.
pub proof fn lemma_line_end(text: Seq<char>)
    ensures
        0 <= line_end(text) <= text.len(),
        forall|k: int| 0 <= k < line_end(text) ==> text[k] != '\n',
        line_end(text) < text.len() ==> text[line_end(text)] == '\n',
    decreases text.len(),
{
    if text.len() == 0 || text[0] == '\n' {
    } else {
        lemma_line_end(text.skip(1));
        assert forall|k: int| 0 <= k < line_end(text) implies text[k] != '\n' by {
            if k > 0 {
                assert(text.skip(1)[k - 1] == text[k]);
            }
        }
        if line_end(text) < text.len() {
            assert(text.skip(1)[line_end(text.skip(1))] == text[line_end(text)]);
        }
    }
}

/// The first position at or after which a line feed stands is the line end.
pub proof fn lemma_line_end_is(text: Seq<char>, n: int)
    requires
        0 <= n <= text.len(),
        forall|k: int| 0 <= k < n ==> text[k] != '\n',
        n < text.len() ==> text[n] == '\n',
    ensures
        line_end(text) == n,
    decreases text.len(),
{
    if text.len() == 0 || text[0] == '\n' {
    } else {
        assert forall|k: int| 0 <= k < n - 1 implies text.skip(1)[k] != '\n' by {
            assert(text.skip(1)[k] == text[k + 1]);
        }
        lemma_line_end_is(text.skip(1), n - 1);
    }
}

fn append_comment_lines(result: &mut String, chars: &Vec<char>)
    ensures
        final(result)@ == old(result)@ + comment_lines(chars@, false),
{
    let mut i: usize = 0;
    let mut blank: bool = false;
    assert(chars@.skip(0) =~= chars@);
    while i < chars.len()
        invariant
            i <= chars.len(),
            old(result)@ + comment_lines(chars@, false) == result@ + comment_lines(
                chars@.skip(i as int),
                blank,
            ),
        decreases chars.len() - i,
    {
        let ghost rest = chars@.skip(i as int);
        let ghost before = result@;
        let ghost was_blank = blank;
        let mut j: usize = i;
        while j < chars.len() && chars[j] != '\n'
            invariant
                i <= j <= chars.len(),
                forall|k: int| i <= k < j ==> chars@[k] != '\n',
            decreases chars.len() - j,
        {
            j = j + 1;
        }
        proof {
            lemma_line_end_is(rest, j - i);
        }
        let ended: bool = j < chars.len();
        let stop: usize = if ended && j > i && chars[j - 1] == '\r' {
            (j - 1) as usize
        } else {
            j
        };
        assert(first_line(rest) =~= chars@.subrange(i as int, stop as int));
        if stop > i {
            push_char(result, '#');
            push_char(result, ' ');
            push_range(result, chars, i, stop);
            push_char(result, '\n');
            assert(result@ =~= before + comment_line(first_line(rest)));
            blank = false;
        } else {
            if !blank {
                push_char(result, '#');
                push_char(result, '\n');
                assert(result@ =~= before + comment_line(first_line(rest)));
            }
            blank = true;
        }
        let next: usize = if ended {
            (j + 1) as usize
        } else {
            j
        };
        proof {
            assert(after_first_line(rest) =~= chars@.skip(next as int));
            let tail = comment_lines(chars@.skip(next as int), blank);
            if stop > i || !was_blank {
                assert(before + (comment_line(first_line(rest)) + tail) =~= result@ + tail);
            }
        }
        i = next;
    }
    assert(result@ + comment_lines(chars@.skip(i as int), blank) =~= result@);
}

/// Appends the comment block registered at `path`, if there is one.
pub fn append_comment(result: &mut String, comments: &PathMap, path: &FieldPath)
    ensures
        final(result)@ == with_comment(old(result)@, comments@, path@),
{
    match comments.get(path) {
        Some(comment) => {
            let chars = chars_of(comment.as_str());
            append_comment_lines(result, &chars);
        },
        None => {},
    }
}

} // verus!
