//! What the JavaScript target does to the declarations before it renders
//! them, and the expression it writes for an occurrence.

use crate::ast::{views, Error, Namespace};
use crate::generator::{apply_type_map, map_namespaces, TypeMap};
use crate::text::{decimal_text, format_integer, same_text};
use vstd::prelude::*;

verus! {

/// The JavaScript target, for ES modules.
#[derive(Debug, Default)]
pub struct JsGenerator {}

/// The names that the serialisation library has for the primitives.
/// `opaque` has no entry.
pub open spec fn js_types() -> Map<Seq<char>, Seq<char>> {
    map![
        "boolean"@ => "Bool"@,
        "int"@ => "Int"@,
        "unsigned int"@ => "UInt"@,
        "unsigned hyper"@ => "UHyper"@,
        "hyper"@ => "Hyper"@,
        "string"@ => "Str"@,
        "float"@ => "Float"@,
        "double"@ => "Double"@,
        "void"@ => "Void"@,
    ]
}

/// JavaScript's table.
pub fn type_map() -> (r: TypeMap)
    ensures
        r@ == js_types(),
{
    let mut table = TypeMap::new();
    table.insert("boolean", "Bool");
    table.insert("int", "Int");
    table.insert("unsigned int", "UInt");
    table.insert("unsigned hyper", "UHyper");
    table.insert("hyper", "Hyper");
    table.insert("string", "Str");
    table.insert("float", "Float");
    table.insert("double", "Double");
    table.insert("void", "Void");
    proof {
        assert(table@ =~= js_types());
    }
    table
}

/// Respells the primitives for JavaScript.
pub fn process_namespaces(namespaces: Vec<Namespace>) -> (r: Result<Vec<Namespace>, Error>)
    ensures
        r is Ok,
        views(r.unwrap()@) == map_namespaces(views(namespaces@), js_types()),
{
    let table = type_map();
    apply_type_map(namespaces, &table)
}

/// Whether a type is a sequence in itself.
pub open spec fn array_type(def_type: Seq<char>) -> bool {
    def_type == "Str"@ || def_type == "opaque"@
}

/// Whether a type is a sequence in itself: `Str` or `opaque`.
pub fn is_array_type(def_type: &str) -> (r: bool)
    ensures
        r == array_type(def_type@),
{
    same_text(def_type, "Str") || same_text(def_type, "opaque")
}

/// Whether a type is one that the serialisation library brings along.
pub open spec fn built_in(def_type: Seq<char>) -> bool {
    def_type == "Void"@ || def_type == "Bool"@ || def_type == "Int"@ || def_type == "Hyper"@
        || def_type == "UInt"@ || def_type == "UHyper"@ || def_type == "Float"@ || def_type
        == "Double"@ || def_type == "quadruple"@
}

/// Whether a type is one that the serialisation library brings along.
pub fn is_built_in(def_type: &str) -> (r: bool)
    ensures
        r == built_in(def_type@),
{
    same_text(def_type, "Void") || same_text(def_type, "Bool") || same_text(def_type, "Int")
        || same_text(def_type, "Hyper") || same_text(def_type, "UInt") || same_text(
        def_type,
        "UHyper",
    ) || same_text(def_type, "Float") || same_text(def_type, "Double") || same_text(
        def_type,
        "quadruple",
    )
}

/// Whether a type is one of the library's that is no sequence.
pub fn is_built_in_single(def_type: &str) -> (r: bool)
    ensures
        r == (!array_type(def_type@) && built_in(def_type@)),
{
    !is_array_type(def_type) && is_built_in(def_type)
}

/// The shapes that the expression for an occurrence can have.
#[derive(Clone, Copy, Debug, PartialEq, Eq, Structural)]
pub enum Form {
    /// Opaque bytes up to a length.
    VarOpaque,
    /// Opaque bytes of one length.
    FixedOpaque,
    /// A variable array of a library type.
    VarArrayOfBuiltIn,
    /// A variable array of a declared type.
    VarArrayOfDeclared,
    /// A library type by itself.
    BuiltIn,
    /// A fixed array of a library type.
    FixedArrayOfBuiltIn,
    /// A declared type by itself.
    Declared,
    /// A fixed array of a declared type.
    FixedArrayOfDeclared,
    /// Anything else: the type with its size as an argument.
    Sized,
}

/// The shape for a type, a size and a fixedness. The first line that
/// applies decides.
pub open spec fn form_of(typ: Seq<char>, size: int, fixed: bool) -> Form {
    let single = !array_type(typ) && built_in(typ);
    if typ == "opaque"@ {
        if fixed {
            Form::FixedOpaque
        } else {
            Form::VarOpaque
        }
    } else if !fixed && single && size > 0 {
        Form::VarArrayOfBuiltIn
    } else if !fixed && !array_type(typ) && size > 0 {
        Form::VarArrayOfDeclared
    } else if single && size == 0 {
        Form::BuiltIn
    } else if single && size > 0 {
        Form::FixedArrayOfBuiltIn
    } else if !array_type(typ) && size == 0 {
        Form::Declared
    } else if !array_type(typ) && size > 0 {
        Form::FixedArrayOfDeclared
    } else {
        Form::Sized
    }
}

/// The shape for a type, a size and a fixedness.
pub fn form(typ: &str, size: i64, fixed: bool) -> (r: Form)
    ensures
        r == form_of(typ@, size as int, fixed),
{
    let array = is_array_type(typ);
    let single = !array && is_built_in(typ);
    if same_text(typ, "opaque") {
        if fixed {
            Form::FixedOpaque
        } else {
            Form::VarOpaque
        }
    } else if !fixed && single && size > 0 {
        Form::VarArrayOfBuiltIn
    } else if !fixed && !array && size > 0 {
        Form::VarArrayOfDeclared
    } else if single && size == 0 {
        Form::BuiltIn
    } else if single && size > 0 {
        Form::FixedArrayOfBuiltIn
    } else if !array && size == 0 {
        Form::Declared
    } else if !array && size > 0 {
        Form::FixedArrayOfDeclared
    } else {
        Form::Sized
    }
}

/// The expression that stands for a type in a given shape.
pub open spec fn expression(shape: Form, typ: Seq<char>, size: int) -> Seq<char> {
    let n = decimal_text(size);
    match shape {
        Form::VarOpaque => "new types.VarOpaque("@ + n + ")"@,
        Form::FixedOpaque => "new types.FixedOpaque("@ + n + ")"@,
        Form::VarArrayOfBuiltIn => "new types.VarArray("@ + n + ", () => new "@ + typ + "())"@,
        Form::VarArrayOfDeclared => "new types.VarArray("@ + n + ", "@ + typ + ")"@,
        Form::BuiltIn => "new types."@ + typ + "()"@,
        Form::FixedArrayOfBuiltIn => "new types.FixedArray("@ + n + ", () => new "@ + typ
            + "())"@,
        Form::Declared => typ + "()"@,
        Form::FixedArrayOfDeclared => "new types.FixedArray("@ + n + ", "@ + typ + ")"@,
        Form::Sized => "new types."@ + typ + "("@ + n + ")"@,
    }
}

/// `a` followed by `b` and `c`.
pub fn join3(a: &str, b: &str, c: &str) -> (r: String)
    ensures
        r@ == a@ + b@ + c@,
{
    let mut out = a.to_owned();
    out.append(b);
    out.append(c);
    out
}

/// `a` followed by `b`, `c`, `d` and `e`.
pub fn join5(a: &str, b: &str, c: &str, d: &str, e: &str) -> (r: String)
    ensures
        r@ == a@ + b@ + c@ + d@ + e@,
{
    let mut out = a.to_owned();
    out.append(b);
    out.append(c);
    out.append(d);
    out.append(e);
    out
}

/// The expression that a template writes for an occurrence of type `typ`
/// with dimension `size`. The occurrence's name has no part in it.
pub fn typeconv(name: &str, typ: &str, size: i64, fixed: bool) -> (r: String)
    ensures
        r@ == expression(form_of(typ@, size as int, fixed), typ@, size as int),
{
    let number = format_integer(size);
    let n = number.as_str();
    match form(typ, size, fixed) {
        Form::VarOpaque => join3("new types.VarOpaque(", n, ")"),
        Form::FixedOpaque => join3("new types.FixedOpaque(", n, ")"),
        Form::VarArrayOfBuiltIn => join5("new types.VarArray(", n, ", () => new ", typ, "())"),
        Form::VarArrayOfDeclared => join5("new types.VarArray(", n, ", ", typ, ")"),
        Form::BuiltIn => join3("new types.", typ, "()"),
        Form::FixedArrayOfBuiltIn => join5("new types.FixedArray(", n, ", () => new ", typ, "())"),
        Form::Declared => {
            let mut out = typ.to_owned();
            out.append("()");
            out
        },
        Form::FixedArrayOfDeclared => join5("new types.FixedArray(", n, ", ", typ, ")"),
        Form::Sized => join5("new types.", typ, "(", n, ")"),
    }
}

/// Whether a name is empty.
pub fn isvoid(x: &str) -> (r: bool)
    ensures
        r == (x@.len() == 0),
{
    x.unicode_len() == 0
}

} // verus!
