//! Layout directives and their lookup by path.

use crate::field_path::FieldPath;
use crate::index::PathMap;
use crate::text::{chars_of, push_range, text_is};
use vstd::prelude::*;

verus! {

/// How a nested table or an array is laid out.
#[derive(Debug, Clone, Copy, PartialEq, Eq)]
pub enum Directive {
    /// A nested table gets a section of its own; an array stays on one line.
    Default,
    /// A nested table is written as an inline map on one line.
    Inline,
    /// The direct children of a nested table are written as dotted keys.
    Dotted,
    /// Every level below a nested table is flattened into dotted keys.
    DottedNested,
    /// The table keeps its section; its children are written as with `Dotted`.
    ChildDotted,
    /// The table keeps its section; its children are written as with
    /// `DottedNested`.
    ChildDottedNested,
    /// An array is written with one element per line.
    Multiline,
}

/// The directive that a tag with the cascade marker taken off asks for.
pub open spec fn cascaded(base: Seq<char>) -> Directive {
    if base == "dotted"@ {
        Directive::ChildDotted
    } else if base == "dotted-nested"@ {
        Directive::ChildDottedNested
    } else {
        Directive::Default
    }
}

/// The directive that a tag names. A tag that starts with `*` cascades its
/// base directive to the children; an unknown tag asks for nothing.
pub open spec fn directive_of(tag: Seq<char>) -> Directive {
    if tag == "inline"@ {
        Directive::Inline
    } else if tag == "dotted"@ {
        Directive::Dotted
    } else if tag == "dotted-nested"@ {
        Directive::DottedNested
    } else if tag == "multiline"@ {
        Directive::Multiline
    } else if tag.len() > 0 && tag[0] == '*' {
        cascaded(tag.skip(1))
    } else {
        Directive::Default
    }
}

/// The directive in force at `path`: the registered one, or the default.
pub open spec fn directive_at(
    formats: Map<Seq<Seq<char>>, Seq<char>>,
    path: Seq<Seq<char>>,
) -> Directive {
    if formats.contains_key(path) {
        directive_of(formats[path])
    } else {
        Directive::Default
    }
}

impl Directive {
    /// Reads a directive from its tag.
    pub fn parse(tag: &str) -> (directive: Directive)
        ensures
            directive == directive_of(tag@),
    {
        if text_is(tag, "inline") {
            Directive::Inline
        } else if text_is(tag, "dotted") {
            Directive::Dotted
        } else if text_is(tag, "dotted-nested") {
            Directive::DottedNested
        } else if text_is(tag, "multiline") {
            Directive::Multiline
        } else {
            let chars = chars_of(tag);
            if chars.len() > 0 && chars[0] == '*' {
                let mut base = String::new();
                push_range(&mut base, &chars, 1, chars.len());
                assert(base@ =~= tag@.skip(1));
                if text_is(base.as_str(), "dotted") {
                    Directive::ChildDotted
                } else if text_is(base.as_str(), "dotted-nested") {
                    Directive::ChildDottedNested
                } else {
                    Directive::Default
                }
            } else {
                Directive::Default
            }
        }
    }

    /// Looks up the directive in force at `path`.
    pub fn lookup(formats: &PathMap, path: &FieldPath) -> (directive: Directive)
        ensures
            directive == directive_at(formats@, path@),
    {
        match formats.get(path) {
            Some(tag) => Directive::parse(tag.as_str()),
            None => Directive::Default,
        }
    }
}

} // verus!
