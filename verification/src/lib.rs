//! Renders a structured configuration value as a commented TOML document.
//!
//! A [`Datum`] tree is walked together with an index of comments, known
//! paths, optional paths and layout directives, all keyed by [`FieldPath`],
//! and turned into text by [`format_with_comments`]. The index is built from
//! a schema description by [`extract_schema_info`]; [`to_scaffold`] runs the
//! whole pipeline, and [`to_template`] runs it without preferences for a
//! schema in the older dialect.
//!
//! What the text is, is defined in [`layout`]; what holds of it for every
//! input is stated in [`laws`], [`order`] and [`spacing`]. [`calm`] says when
//! the texts that come from elsewhere can bring no run of line feeds, and
//! tests it; [`literal`] says what a float literal is, and tests it.

pub mod calm;
pub mod comment;
pub mod datum;
pub mod directive;
pub mod field_path;
pub mod format;
pub mod index;
pub mod laws;
pub mod layout;
pub mod literal;
pub mod order;
pub mod scaffold;
pub mod schema;
pub mod spacing;
pub mod text;
pub mod writer;

pub use calm::{is_calm, is_inner, table_is_calm};
pub use comment::append_comment;
pub use datum::{is_scalar, is_well_formed, Datum};
pub use directive::Directive;
pub use field_path::FieldPath;
pub use format::{
    append_nested_table, append_section_separator, append_table, categorize_table_keys,
    flatten_dotted, format_value, format_with_comments, has_comments,
};
pub use index::{PathMap, PathSet};
pub use literal::is_float_literal;
pub use scaffold::{finish_document, scaffold_is_calm, to_scaffold, to_template};
pub use schema::{
    extract_all_comments, extract_nested_schema_info, extract_schema_info, SchemaInfo, SchemaNode,
};
