//! Float literals: what text stands for a float in a document, and a test
//! for it.

use crate::text::{chars_of, inner, no_feed, triple_at};
use vstd::prelude::*;

verus! {

/// Whether `c` is a decimal digit.
pub open spec fn is_digit(c: char) -> bool {
    '0' <= c <= '9'
}

/// Whether `c` is a sign.
pub open spec fn is_sign(c: char) -> bool {
    c == '+' || c == '-'
}

/// The position behind the run of digits that starts at `from`.
pub open spec fn digits_end(text: Seq<char>, from: int) -> int
    decreases text.len() - from,
{
    if 0 <= from < text.len() && is_digit(text[from]) {
        digits_end(text, from + 1)
    } else {
        from
    }
}

/// The position behind the fraction that starts at `at`: a dot and the
/// digits behind it, or nothing.
pub open spec fn fraction_end(text: Seq<char>, at: int) -> int {
    if 0 <= at < text.len() && text[at] == '.' {
        digits_end(text, at + 1)
    } else {
        at
    }
}

/// The position at which the digits of the exponent start whose `e` stands
/// at `at`, behind its sign if it has one; `at` itself where no `e` stands
/// there.
pub open spec fn exponent_digits(text: Seq<char>, at: int) -> int {
    if 0 <= at < text.len() && (text[at] == 'e' || text[at] == 'E') {
        if at + 1 < text.len() && is_sign(text[at + 1]) {
            at + 2
        } else {
            at + 1
        }
    } else {
        at
    }
}

/// Whether `text` is a float literal: an optional sign, then `inf`, `nan`,
/// or a decimal number without needless leading zero that has a fraction,
/// an exponent or both. Digits are not grouped.
pub open spec fn float_literal(text: Seq<char>) -> bool {
    let start: int = if text.len() > 0 && is_sign(text[0]) {
        1
    } else {
        0
    };
    let rest = text.skip(start);
    let whole = digits_end(text, start);
    let fraction = fraction_end(text, whole);
    let exponent = exponent_digits(text, fraction);
    let end = if exponent > fraction {
        digits_end(text, exponent)
    } else {
        fraction
    };
    ||| rest == seq!['i', 'n', 'f']
    ||| rest == seq!['n', 'a', 'n']
    ||| {
        &&& whole > start
        &&& text[start] == '0' ==> whole == start + 1
        &&& fraction == whole || fraction > whole + 1
        &&& exponent == fraction || end > exponent
        &&& fraction > whole || exponent > fraction
        &&& end == text.len()
    }
}

proof fn lemma_digits_end(text: Seq<char>, from: int)
    requires
        0 <= from <= text.len(),
    ensures
        from <= digits_end(text, from) <= text.len(),
        forall|k: int| from <= k < digits_end(text, from) ==> is_digit(#[trigger] text[k]),
    decreases text.len() - from,
{
    if from < text.len() && is_digit(text[from]) {
        lemma_digits_end(text, from + 1);
    }
}

/// A float literal holds no line feed, so it is calm.
pub proof fn lemma_float_literal_is_calm(text: Seq<char>)
    requires
        float_literal(text),
    ensures
        no_feed(text),
        inner(text),
{
    let start: int = if text.len() > 0 && is_sign(text[0]) {
        1
    } else {
        0
    };
    let rest = text.skip(start);
    assert forall|k: int| 0 <= k < text.len() implies text[k] != '\n' by {
        if rest == seq!['i', 'n', 'f'] || rest == seq!['n', 'a', 'n'] {
            if k >= start {
                assert(text[k] == rest[k - start]);
                assert(rest.len() == 3);
            } else {
                assert(is_sign(text[0]));
            }
        } else {
            let whole = digits_end(text, start);
            lemma_digits_end(text, start);
            let fraction = fraction_end(text, whole);
            if whole < text.len() {
                lemma_digits_end(text, whole + 1);
            }
            let exponent = exponent_digits(text, fraction);
            if exponent <= text.len() {
                lemma_digits_end(text, exponent);
            }
            if k < start {
                assert(is_sign(text[0]));
            } else if k < whole {
                assert(is_digit(text[k]));
            } else if k < fraction {
                if k > whole {
                    assert(is_digit(text[k]));
                } else {
                    assert(text[whole] == '.');
                }
            } else if k < exponent {
                if k == fraction {
                    assert(text[fraction] == 'e' || text[fraction] == 'E');
                } else {
                    assert(is_sign(text[fraction + 1]));
                }
            } else {
                assert(exponent > fraction);
                assert(is_digit(text[k]));
            }
        }
    }
    assert forall|i: int| !#[trigger] triple_at(text, i) by {}
}

fn digits_end_of(chars: &Vec<char>, from: usize) -> (end: usize)
    requires
        from <= chars.len(),
    ensures
        end == digits_end(chars@, from as int),
        from <= end <= chars.len(),
{
    let mut i: usize = from;
    while i < chars.len() && '0' <= chars[i] && chars[i] <= '9'
        invariant
            from <= i <= chars.len(),
            digits_end(chars@, from as int) == digits_end(chars@, i as int),
        decreases chars.len() - i,
    {
        i = i + 1;
    }
    i
}

/// Checks whether `text` is a float literal.
pub fn is_float_literal(text: &str) -> (r: bool)
    ensures
        r == float_literal(text@),
        r ==> inner(text@),
{
    let chars = chars_of(text);
    let n: usize = chars.len();
    let start: usize = if n > 0 && (chars[0] == '+' || chars[0] == '-') {
        1
    } else {
        0
    };
    let ghost rest = chars@.skip(start as int);
    let named: bool = n - start == 3 && ((chars[start] == 'i' && chars[start + 1] == 'n'
        && chars[start + 2] == 'f') || (chars[start] == 'n' && chars[start + 1] == 'a'
        && chars[start + 2] == 'n'));
    proof {
        if n - start == 3 {
            assert(rest[0] == chars@[start as int]);
            assert(rest[1] == chars@[start + 1]);
            assert(rest[2] == chars@[start + 2]);
            if named {
                if chars[start as int] == 'i' {
                    assert(rest =~= seq!['i', 'n', 'f']);
                } else {
                    assert(rest =~= seq!['n', 'a', 'n']);
                }
            }
        }
        if rest == seq!['i', 'n', 'f'] || rest == seq!['n', 'a', 'n'] {
            assert(rest.len() == 3);
        }
    }
    let r: bool = if named {
        true
    } else {
        let whole: usize = digits_end_of(&chars, start);
        let fraction: usize = if whole < n && chars[whole] == '.' {
            digits_end_of(&chars, whole + 1)
        } else {
            whole
        };
        let exponent: usize = if fraction < n && (chars[fraction] == 'e' || chars[fraction]
            == 'E') {
            if fraction + 1 < n && (chars[fraction + 1] == '+' || chars[fraction + 1] == '-') {
                fraction + 2
            } else {
                fraction + 1
            }
        } else {
            fraction
        };
        let end: usize = if exponent > fraction {
            digits_end_of(&chars, exponent)
        } else {
            fraction
        };
        whole > start && (chars[start] != '0' || whole == start + 1) && (fraction == whole
            || fraction > whole + 1) && (exponent == fraction || end > exponent) && (fraction
            > whole || exponent > fraction) && end == n
    };
    proof {
        if r {
            lemma_float_literal_is_calm(text@);
        }
    }
    r
}

} // verus!
