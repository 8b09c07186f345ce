//! What the Rust target does to the declarations before it renders them,
//! and what its templates ask about a name.

use crate::ast::{views, Error, Namespace};
use crate::generator::{apply_type_map, map_namespaces, TypeMap};
use crate::text::same_text;
use vstd::prelude::*;

verus! {

/// The Rust target. With `include_macro` set, the rendered file brings the
/// derive macros of the serialisation crate into scope itself.
#[derive(Debug, Default)]
pub struct RustGenerator {
    pub include_macro: bool,
}

/// Rust's spelling of the primitives.
pub open spec fn rust_types() -> Map<Seq<char>, Seq<char>> {
    map![
        "boolean"@ => "bool"@,
        "opaque"@ => "u8"@,
        "int"@ => "i32"@,
        "unsigned int"@ => "u32"@,
        "hyper"@ => "i64"@,
        "unsigned hyper"@ => "u64"@,
        "float"@ => "f32"@,
        "double"@ => "f64"@,
        "string"@ => "String"@,
    ]
}

/// Rust's table.
pub fn type_map() -> (r: TypeMap)
    ensures
        r@ == rust_types(),
{
    let mut table = TypeMap::new();
    table.insert("boolean", "bool");
    table.insert("opaque", "u8");
    table.insert("int", "i32");
    table.insert("unsigned int", "u32");
    table.insert("hyper", "i64");
    table.insert("unsigned hyper", "u64");
    table.insert("float", "f32");
    table.insert("double", "f64");
    table.insert("string", "String");
    proof {
        assert(table@ =~= rust_types());
    }
    table
}

/// Respells the primitives for Rust.
pub fn process_namespaces(namespaces: Vec<Namespace>) -> (r: Result<Vec<Namespace>, Error>)
    ensures
        r is Ok,
        views(r.unwrap()@) == map_namespaces(views(namespaces@), rust_types()),
{
    let table = type_map();
    apply_type_map(namespaces, &table)
}

/// Whether a type is Rust's `String`.
pub fn eqstr(x: &str) -> (r: bool)
    ensures
        r == (x@ == "String"@),
{
    same_text(x, "String")
}

/// Whether a type is another than Rust's `String`.
pub fn neqstr(x: &str) -> (r: bool)
    ensures
        r == (x@ != "String"@),
{
    !same_text(x, "String")
}

/// Whether a name is empty.
pub fn isvoid(x: &str) -> (r: bool)
    ensures
        r == (x@.len() == 0),
{
    x.unicode_len() == 0
}

} // verus!
