//! The scalar encodings of the `toml_writer` crate and the document
//! serializer of the `toml` crate, as the renderer uses them.

use crate::datum::{Datum, DatumView};
use crate::text::{has_feed, inner, no_feed, no_triple, soft, triple_at};
use toml_writer::TomlWrite;
use vstd::prelude::*;

verus! {

/// How `toml_writer` writes a key: bare where the key allows it, quoted and
/// escaped where it does not.
pub uninterp spec fn toml_key(key: Seq<char>) -> Seq<char>;

/// How `toml_writer` writes a string in its basic form: between double
/// quotes, with quotes, backslashes and control characters escaped.
pub uninterp spec fn toml_basic_string(text: Seq<char>) -> Seq<char>;

/// How `toml_writer` writes a string by its default rules. A string with a
/// line feed stands between triple quotes with its line feeds kept as they
/// are, unescaped where the rest of it allows that.
pub uninterp spec fn toml_default_string(text: Seq<char>) -> Seq<char>;

/// How `toml::to_string` writes a value as a whole document, where it can.
pub uninterp spec fn toml_document(value: DatumView) -> Option<Seq<char>>;

/// The decimal digit for `d`, taken modulo ten.
pub open spec fn digit(d: int) -> char {
    seq!['0', '1', '2', '3', '4', '5', '6', '7', '8', '9'][d % 10]
}

/// The decimal digits of a natural number, most significant first.
pub open spec fn digits(n: int) -> Seq<char>
    decreases n,
{
    if n < 10 {
        seq![digit(n)]
    } else {
        digits(n / 10).push(digit(n % 10))
    }
}

/// An integer in decimal, with a minus sign where it is negative.
pub open spec fn integer_text(i: int) -> Seq<char> {
    if i < 0 {
        seq!['-'] + digits(-i)
    } else {
        digits(i)
    }
}

/// A boolean as its TOML literal.
pub open spec fn boolean_text(b: bool) -> Seq<char> {
    if b {
        seq!['t', 'r', 'u', 'e']
    } else {
        seq!['f', 'a', 'l', 's', 'e']
    }
}

/// A string as it is written: in the basic form on one line, or by the
/// default rules, which give a multi-line form, where it holds a line feed.
pub open spec fn string_text(text: Seq<char>) -> Seq<char> {
    if no_feed(text) {
        toml_basic_string(text)
    } else {
        toml_default_string(text)
    }
}

/// Calls `TomlWrite::key` of `toml_writer` on an empty `String`. The crate
/// encodes the key by its default rules; the write cannot fail. A line feed
/// in the key makes the crate choose the escaped form, in which it is
/// written as `\n`, so the result holds no line feed.
#[verifier::external_body]
fn key_text(key: &str) -> (text: String)
    ensures
        text@ == toml_key(key@),
        no_feed(text@),
{
    let mut text = String::new();
    let _ = text.key(key);
    text
}

/// Calls `TomlStringBuilder::as_basic` and `TomlWrite::value` of
/// `toml_writer`. The basic form escapes every line feed as `\n`, so the
/// result holds none.
#[verifier::external_body]
fn basic_string_text(value: &str) -> (text: String)
    ensures
        text@ == toml_basic_string(value@),
        no_feed(text@),
{
    let mut text = String::new();
    let _ = text.value(toml_writer::TomlStringBuilder::new(value).as_basic());
    text
}

/// Calls `TomlStringBuilder::as_default` and `TomlWrite::value` of
/// `toml_writer`. In each of the four forms that the crate can choose, the
/// result starts and ends with the quotes. Its line feeds are those of the
/// string that are not escaped, kept where they are, and one more in front
/// of the string where a multi-line form is chosen: so it holds three in a
/// row only where the string does or starts with two.
#[verifier::external_body]
fn default_string_text(value: &str) -> (text: String)
    ensures
        text@ == toml_default_string(value@),
        text@.len() > 0 && text@[0] != '\n' && text@.last() != '\n',
        soft(value@) ==> no_triple(text@),
{
    let mut text = String::new();
    let _ = text.value(toml_writer::TomlStringBuilder::new(value).as_default());
    text
}

/// Appends a key as it is encoded. The encoding holds no line feed, so it
/// is calm.
pub(crate) fn write_key(out: &mut String, key: &str)
    ensures
        final(out)@ == old(out)@ + toml_key(key@),
        no_feed(toml_key(key@)),
        inner(toml_key(key@)),
{
    let text = key_text(key);
    out.append(text.as_str());
    proof {
        assert forall|i: int| !#[trigger] triple_at(text@, i) by {}
    }
}

/// Appends a string as it is written: in the basic form, or by the default
/// rules where it holds a line feed. What is appended is calm where the
/// string brings no run of three line feeds and does not start with two.
pub(crate) fn write_string(out: &mut String, value: &str)
    ensures
        final(out)@ == old(out)@ + string_text(value@),
        soft(value@) ==> inner(string_text(value@)),
{
    if has_feed(value) {
        let text = default_string_text(value);
        out.append(text.as_str());
    } else {
        let text = basic_string_text(value);
        out.append(text.as_str());
        proof {
            assert forall|i: int| !#[trigger] triple_at(text@, i) by {}
        }
    }
}

/// Calls `TomlWrite::value` of `toml_writer` with an `i64`, which the crate
/// formats with `{}`: the decimal digits, after a minus sign for a negative
/// number.
#[verifier::external_body]
pub(crate) fn write_integer(out: &mut String, i: i64)
    ensures
        final(out)@ == old(out)@ + integer_text(i as int),
{
    let _ = out.value(i);
}

/// Calls `TomlWrite::value` of `toml_writer` with a `bool`, which the crate
/// formats with `{}`: `true` or `false`.
#[verifier::external_body]
pub(crate) fn write_boolean(out: &mut String, b: bool)
    ensures
        final(out)@ == old(out)@ + boolean_text(b),
{
    let _ = out.value(b);
}

/// The value type of the `toml` crate, which is only passed on here.
#[verifier::external_type_specification]
#[verifier::external_body]
pub struct ExTomlValue(toml::Value);

/// Builds the `toml::Value` that holds what `value` holds, variant by
/// variant. A float literal is read by the standard library's float parse
/// (`str::parse`); where it does not parse there is no such value. Nothing
/// is claimed of the result.
#[verifier::external_body]
fn outside_value(value: &Datum) -> Option<toml::Value> {
    Some(match value {
        Datum::String(s) => toml::Value::String(s.clone()),
        Datum::Integer(i) => toml::Value::Integer(*i),
        Datum::Float(literal) => toml::Value::Float(literal.parse().ok()?),
        Datum::Boolean(b) => toml::Value::Boolean(*b),
        Datum::Array(a) => toml::Value::Array(a.iter().map(outside_value).collect::<Option<_>>()?),
        Datum::Table(t) => toml::Value::Table(
            t.iter().map(|(k, v)| Some((k.clone(), outside_value(v)?))).collect::<Option<_>>()?,
        ),
    })
}

/// Calls `toml::to_string` on the `toml::Value` built from `value`. The
/// crate walks the value in the order of its entries and writes with no
/// state of its own, so the result depends on the value alone; it is absent
/// where the crate reports an error or a float literal of `value` does not
/// parse.
#[verifier::external_body]
pub(crate) fn document_text(value: &Datum) -> (text: Option<String>)
    ensures
        text.is_some() == toml_document(value@).is_some(),
        text.is_some() ==> text.unwrap()@ == toml_document(value@).unwrap(),
{
    toml::to_string(&outside_value(value)?).ok()
}

} // verus!
