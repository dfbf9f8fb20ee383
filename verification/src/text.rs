//! Text primitives shared by the renderer and the schema walk: character
//! access, comparison, joining and trimming.

use vstd::prelude::*;

verus! {

/// What `char::is_whitespace` answers for a character: whether it has the
/// Unicode `White_Space` property.
pub uninterp spec fn is_whitespace(c: char) -> bool;

/// Calls `char::is_whitespace`. The standard library documents the answer as
/// the `White_Space` property and shows the space and the line feed as
/// members; nothing else about the property is claimed here.
#[verifier::external_body]
pub(crate) fn char_is_whitespace(c: char) -> (r: bool)
    ensures
        r == is_whitespace(c),
        c == ' ' || c == '\n' ==> r,
{
    c.is_whitespace()
}

/// Calls `String::push`: the character is appended at the end.
#[verifier::external_body]
pub(crate) fn push_char(text: &mut String, c: char)
    ensures
        final(text)@ == old(text)@.push(c),
{
    text.push(c)
}

/// The characters of `text`, in order.
pub(crate) fn chars_of(text: &str) -> (out: Vec<char>)
    ensures
        out@ == text@,
{
    let mut out: Vec<char> = Vec::new();
    for c in it: text.chars()
        invariant
            out@ == it.seq().take(it.index()),
            it.seq() == text@,
    {
        out.push(c);
    }
    out
}

/// Appends `chars[from..to]` to `out`.
pub(crate) fn push_range(out: &mut String, chars: &Vec<char>, from: usize, to: usize)
    requires
        from <= to <= chars.len(),
    ensures
        final(out)@ == old(out)@ + chars@.subrange(from as int, to as int),
{
    let mut i: usize = from;
    while i < to
        invariant
            from <= i <= to <= chars.len(),
            out@ == old(out)@ + chars@.subrange(from as int, i as int),
        decreases to - i,
    {
        push_char(out, chars[i]);
        assert(chars@.subrange(from as int, i + 1) =~= chars@.subrange(from as int, i as int).push(
            chars@[i as int],
        ));
        i = i + 1;
    }
}

/// Whether `text` reads exactly as `literal`.
pub(crate) fn text_is(text: &str, literal: &str) -> (r: bool)
    ensures
        r == (text@ == literal@),
{
    let a = String::from_str(text);
    let b = String::from_str(literal);
    a == b
}

/// `parts` written one after another with `sep` between neighbours.
pub open spec fn join(parts: Seq<Seq<char>>, sep: Seq<char>) -> Seq<char>
    decreases parts.len(),
{
    if parts.len() == 0 {
        Seq::empty()
    } else if parts.len() == 1 {
        parts[0]
    } else {
        join(parts.drop_last(), sep) + sep + parts.last()
    }
}

/// Joining one part more appends the separator and the part, except for the
/// first part, which stands alone.
pub proof fn lemma_join_step(parts: Seq<Seq<char>>, sep: Seq<char>, i: int)
    requires
        0 <= i < parts.len(),
    ensures
        join(parts.take(i + 1), sep) == if i == 0 {
            parts[0]
        } else {
            join(parts.take(i), sep) + sep + parts[i]
        },
        join(parts.take(0), sep) == Seq::<char>::empty(),
{
    assert(parts.take(i + 1).drop_last() =~= parts.take(i));
    assert(parts.take(i + 1).last() == parts[i]);
}

/// Calls `str::ends_with` with a string pattern: whether `text` ends with
/// the characters of `suffix`.
#[verifier::external_body]
pub(crate) fn ends_with(text: &str, suffix: &str) -> (r: bool)
    ensures
        r == suffix@.is_suffix_of(text@),
{
    text.ends_with(suffix)
}

/// `text` without its trailing whitespace.
pub open spec fn trim_end(text: Seq<char>) -> Seq<char>
    decreases text.len(),
{
    if text.len() > 0 && is_whitespace(text.last()) {
        trim_end(text.drop_last())
    } else {
        text
    }
}

/// `text` without its leading whitespace.
pub open spec fn trim_start(text: Seq<char>) -> Seq<char>
    decreases text.len(),
{
    if text.len() > 0 && is_whitespace(text[0]) {
        trim_start(text.skip(1))
    } else {
        text
    }
}

/// `text` without leading or trailing whitespace.
pub open spec fn trim(text: Seq<char>) -> Seq<char> {
    trim_end(trim_start(text))
}

/// Length of `chars[..end]` once trailing whitespace is dropped.
fn trimmed_end(chars: &Vec<char>, start: usize, end: usize) -> (n: usize)
    requires
        start <= end <= chars.len(),
    ensures
        start <= n <= end,
        trim_end(chars@.subrange(start as int, end as int)) == chars@.subrange(
            start as int,
            n as int,
        ),
        n > start ==> !is_whitespace(chars@[n - 1]) && chars@[n - 1] != '\n',
{
    let mut n: usize = end;
    while n > start && char_is_whitespace(chars[n - 1])
        invariant
            start <= n <= end <= chars.len(),
            trim_end(chars@.subrange(start as int, end as int)) == trim_end(
                chars@.subrange(start as int, n as int),
            ),
        decreases n,
    {
        assert(chars@.subrange(start as int, n as int).drop_last() =~= chars@.subrange(
            start as int,
            n - 1,
        ));
        n = n - 1;
    }
    n
}

/// Index of the first character of `chars` that is not whitespace.
fn trimmed_start(chars: &Vec<char>) -> (n: usize)
    ensures
        n <= chars.len(),
        trim_start(chars@) == chars@.subrange(n as int, chars.len() as int),
{
    let mut n: usize = 0;
    assert(chars@ =~= chars@.subrange(0, chars.len() as int));
    while n < chars.len() && char_is_whitespace(chars[n])
        invariant
            n <= chars.len(),
            trim_start(chars@) == trim_start(chars@.subrange(n as int, chars.len() as int)),
        decreases chars.len() - n,
    {
        assert(chars@.subrange(n as int, chars.len() as int).skip(1) =~= chars@.subrange(
            n + 1,
            chars.len() as int,
        ));
        n = n + 1;
    }
    n
}

/// A copy of `text` without its trailing whitespace. What is left is the
/// beginning of `text` and does not end with a line feed.
pub(crate) fn trim_end_of(text: &str) -> (out: String)
    ensures
        out@ == trim_end(text@),
        out@.is_prefix_of(text@),
        out@.len() > 0 ==> !is_whitespace(out@.last()) && out@.last() != '\n',
{
    let chars = chars_of(text);
    assert(chars@ =~= chars@.subrange(0, chars.len() as int));
    let end: usize = trimmed_end(&chars, 0, chars.len());
    let mut out = String::new();
    push_range(&mut out, &chars, 0, end);
    assert(out@ =~= chars@.subrange(0, end as int));
    out
}

/// A copy of `text` without leading or trailing whitespace.
pub(crate) fn trim_of(text: &str) -> (out: String)
    ensures
        out@ == trim(text@),
{
    let chars = chars_of(text);
    let start: usize = trimmed_start(&chars);
    let end: usize = trimmed_end(&chars, start, chars.len());
    let mut out = String::new();
    push_range(&mut out, &chars, start, end);
    assert(out@ =~= chars@.subrange(start as int, end as int));
    out
}

/// Whether `text` holds no line feed.
pub open spec fn no_feed(text: Seq<char>) -> bool {
    forall|k: int| 0 <= k < text.len() ==> text[k] != '\n'
}

/// Whether three line feeds stand at positions `i`, `i + 1` and `i + 2`.
pub open spec fn triple_at(text: Seq<char>, i: int) -> bool {
    0 <= i && i + 2 < text.len() && text[i] == '\n' && text[i + 1] == '\n' && text[i + 2] == '\n'
}

/// Whether `text` holds no three line feeds in a row.
pub open spec fn no_triple(text: Seq<char>) -> bool {
    forall|i: int| !#[trigger] triple_at(text, i)
}

/// Whether `text` is calm: it holds no three line feeds in a row and
/// neither starts nor ends with one.
pub open spec fn inner(text: Seq<char>) -> bool {
    no_triple(text) && (text.len() > 0 ==> text[0] != '\n' && text.last() != '\n')
}

/// Whether `text` brings no three line feeds in a row with it and does not
/// start with two.
pub open spec fn soft(text: Seq<char>) -> bool {
    no_triple(text) && !(text.len() >= 2 && text[0] == '\n' && text[1] == '\n')
}

/// Checks whether `text` holds a line feed.
pub(crate) fn has_feed(text: &str) -> (r: bool)
    ensures
        r == !no_feed(text@),
{
    let chars = chars_of(text);
    let mut i: usize = 0;
    while i < chars.len()
        invariant
            i <= chars.len(),
            chars@ == text@,
            forall|k: int| 0 <= k < i ==> chars@[k] != '\n',
        decreases chars.len() - i,
    {
        if chars[i] == '\n' {
            assert(text@[i as int] == '\n');
            return true;
        }
        i = i + 1;
    }
    false
}

} // verus!
