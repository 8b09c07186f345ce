//! A schema front end for an XDR-style interface definition language.
//!
//! Source text is matched against the grammar into a parse tree (`grammar`,
//! `parser`, `tree`), the tree is normalised into namespaces of typedefs,
//! structs, enums and unions (`builder`, `ast`), and the declarations are
//! either respelled for a target language (`generator`) or flattened into
//! a column schema (`schema`). `laws` and `parsed` state what holds across
//! these steps, and `text` holds what they share on strings.

pub mod ast;
pub mod builder;
pub mod generator;
pub mod grammar;
pub mod laws;
pub mod parsed;
pub mod parser;
pub mod schema;
pub mod text;
pub mod tree;

pub use ast::{
    Case, Def, Enum, EnumValue, Error, Namespace, Struct, Switch, Typedef, Union, UNBOUNDED,
};
pub use builder::build_namespaces;
pub use generator::commonjs::CommonJsGenerator;
pub use generator::go::GoGenerator;
pub use generator::js::JsGenerator;
pub use generator::rust::RustGenerator;
pub use generator::{apply_type_map, TypeMap};
pub use parser::XDRParser;
pub use schema::{
    build_schema, def_to_column, generate_schema, string_to_basic_type, BasicType, Catalog,
    Column, Schema, Table,
};
pub use tree::{Node, Rule};
