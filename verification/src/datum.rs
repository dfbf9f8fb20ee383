//! The structured value that is rendered.

use crate::literal::{float_literal, is_float_literal};
use vstd::prelude::*;

verus! {

/// A structured value: a scalar, an array of values, or a table of named
/// values in the order in which they were inserted.
///
/// A float is held as the TOML literal that stands for it, because the
/// renderer only ever copies that literal into the document, and a table is
/// meant to hold each key once. [`is_well_formed`] tests a value for both;
/// the renderer itself is total, and writes a text that is no literal, or a
/// key that comes twice, as it finds it.
#[derive(Debug, PartialEq)]
pub enum Datum {
    /// A string.
    String(String),
    /// A 64-bit signed integer.
    Integer(i64),
    /// A float, by its TOML literal.
    Float(String),
    /// A boolean.
    Boolean(bool),
    /// An array of values.
    Array(Vec<Datum>),
    /// A table: its entries by key, in insertion order.
    Table(Vec<(String, Datum)>),
}

/// The mathematical model of a [`Datum`].
pub enum DatumView {
    String(Seq<char>),
    Integer(int),
    Float(Seq<char>),
    Boolean(bool),
    Array(Seq<DatumView>),
    Table(Seq<(Seq<char>, DatumView)>),
}

impl View for Datum {
    type V = DatumView;

    open spec fn view(&self) -> DatumView
        decreases self,
    {
        match self {
            Datum::String(s) => DatumView::String(s@),
            Datum::Integer(i) => DatumView::Integer(*i as int),
            Datum::Float(literal) => DatumView::Float(literal@),
            Datum::Boolean(b) => DatumView::Boolean(*b),
            Datum::Array(items) => DatumView::Array(
                Seq::new(
                    items.len() as nat,
                    |i: int|
                        if 0 <= i < items.len() {
                            items[i]@
                        } else {
                            DatumView::Boolean(false)
                        },
                ),
            ),
            Datum::Table(entries) => DatumView::Table(
                Seq::new(
                    entries.len() as nat,
                    |i: int|
                        (
                            entries[i].0@,
                            if 0 <= i < entries.len() {
                                entries[i].1@
                            } else {
                                DatumView::Boolean(false)
                            },
                        ),
                ),
            ),
        }
    }
}

/// The entries of a table, each as its key and the model of its value.
pub open spec fn entries_view(entries: Seq<(String, Datum)>) -> Seq<(Seq<char>, DatumView)> {
    Seq::new(entries.len(), |i: int| (entries[i].0@, entries[i].1@))
}

/// The items of an array, each as its model.
pub open spec fn items_view(items: Seq<Datum>) -> Seq<DatumView> {
    Seq::new(items.len(), |i: int| items[i]@)
}

/// The model of a table is the list of its entries' models.
pub proof fn lemma_table_view(value: Datum)
    requires
        value is Table,
    ensures
        value@ == DatumView::Table(entries_view(value->Table_0@)),
{
    assert(value@->Table_0 =~= entries_view(value->Table_0@));
}

/// The model of an array is the list of its items' models.
pub proof fn lemma_array_view(value: Datum)
    requires
        value is Array,
    ensures
        value@ == DatumView::Array(items_view(value->Array_0@)),
{
    assert(value@->Array_0 =~= items_view(value->Array_0@));
}

/// Whether a value is a scalar: neither a table nor an array.
pub open spec fn scalar(value: DatumView) -> bool {
    !(value is Table || value is Array)
}

/// Checks whether a value is a scalar: neither a table nor an array.
pub fn is_scalar(value: &Datum) -> (r: bool)
    ensures
        r == scalar(value@),
{
    match value {
        Datum::Table(_) => false,
        Datum::Array(_) => false,
        _ => true,
    }
}

/// Whether no key occurs twice among the entries.
pub open spec fn distinct_keys(entries: Seq<(Seq<char>, DatumView)>) -> bool {
    forall|i: int, j: int|
        0 <= i < j < entries.len() ==> (#[trigger] entries[i]).0 != (#[trigger] entries[j]).0
}

/// Whether `value` is what it stands for at every depth: each float is a
/// float literal, and each table holds each of its keys once.
pub open spec fn well_formed(value: DatumView) -> bool
    decreases value,
{
    match value {
        DatumView::Float(text) => float_literal(text),
        DatumView::Array(items) => forall|i: int|
            0 <= i < items.len() ==> well_formed(#[trigger] items[i]),
        DatumView::Table(entries) => distinct_keys(entries) && forall|i: int|
            0 <= i < entries.len() ==> well_formed((#[trigger] entries[i]).1),
        _ => true,
    }
}

/// Checks whether no key occurs twice among the entries of a table.
fn entries_have_distinct_keys(table: &Vec<(String, Datum)>) -> (r: bool)
    ensures
        r == distinct_keys(entries_view(table@)),
{
    let ghost entries = entries_view(table@);
    let mut j: usize = 0;
    while j < table.len()
        invariant
            j <= table.len(),
            entries == entries_view(table@),
            forall|a: int, b: int|
                0 <= a < b < j ==> (#[trigger] entries[a]).0 != (#[trigger] entries[b]).0,
        decreases table.len() - j,
    {
        let mut i: usize = 0;
        while i < j
            invariant
                i <= j < table.len(),
                entries == entries_view(table@),
                forall|a: int| 0 <= a < i ==> (#[trigger] entries[a]).0 != entries[j as int].0,
            decreases j - i,
        {
            if table[i].0 == table[j].0 {
                assert(entries[i as int].0 == entries[j as int].0);
                return false;
            }
            i = i + 1;
        }
        j = j + 1;
    }
    true
}

/// Checks whether `value` is well formed: each float in it is a float
/// literal, and each table in it holds each of its keys once.
pub fn is_well_formed(value: &Datum) -> (r: bool)
    ensures
        r == well_formed(value@),
    decreases value@,
{
    match value {
        Datum::Float(text) => is_float_literal(text.as_str()),
        Datum::Array(items) => {
            proof {
                lemma_array_view(*value);
            }
            let ghost views = items_view(items@);
            let mut i: usize = 0;
            while i < items.len()
                invariant
                    i <= items.len(),
                    views == items_view(items@),
                    value@ == DatumView::Array(views),
                    forall|k: int| 0 <= k < i ==> well_formed(#[trigger] views[k]),
                decreases items.len() - i,
            {
                assert(views[i as int] == items@[i as int]@);
                assert(decreases_to!(value@ => value@->Array_0));
                assert(decreases_to!(views => views[i as int]));
                if !is_well_formed(&items[i]) {
                    assert(!well_formed(views[i as int]));
                    return false;
                }
                i = i + 1;
            }
            true
        },
        Datum::Table(table) => {
            proof {
                lemma_table_view(*value);
            }
            let ghost entries = entries_view(table@);
            if !entries_have_distinct_keys(table) {
                return false;
            }
            let mut i: usize = 0;
            while i < table.len()
                invariant
                    i <= table.len(),
                    entries == entries_view(table@),
                    value@ == DatumView::Table(entries),
                    distinct_keys(entries),
                    forall|k: int| 0 <= k < i ==> well_formed((#[trigger] entries[k]).1),
                decreases table.len() - i,
            {
                assert(entries[i as int].1 == table@[i as int].1@);
                assert(decreases_to!(value@ => value@->Table_0));
                assert(decreases_to!(entries => entries[i as int]));
                assert(decreases_to!(entries[i as int] => entries[i as int].1));
                if !is_well_formed(&table[i].1) {
                    assert(!well_formed(entries[i as int].1));
                    return false;
                }
                i = i + 1;
            }
            true
        },
        _ => true,
    }
}

} // verus!
