//! What the CommonJS target does to the declarations before it renders
//! them, and the expression it writes for an occurrence.

use crate::ast::{views, Error, Namespace};
use crate::generator::js::{form, form_of, join3, join5, js_types, Form};
pub use crate::generator::js::{is_array_type, is_built_in, is_built_in_single, isvoid};
use crate::generator::{apply_type_map, map_namespaces, TypeMap};
use crate::text::{decimal_text, format_integer};
use vstd::prelude::*;

verus! {

/// The JavaScript target, for CommonJS modules.
#[derive(Debug, Default)]
pub struct CommonJsGenerator {}

/// CommonJS's table: the one of the JavaScript target.
pub fn type_map() -> (r: TypeMap)
    ensures
        r@ == js_types(),
{
    crate::generator::js::type_map()
}

/// Respells the primitives for JavaScript.
pub fn process_namespaces(namespaces: Vec<Namespace>) -> (r: Result<Vec<Namespace>, Error>)
    ensures
        r is Ok,
        views(r.unwrap()@) == map_namespaces(views(namespaces@), js_types()),
{
    let table = type_map();
    apply_type_map(namespaces, &table)
}

/// The expression that stands for a type in a given shape. Library types
/// are reached through the module's default export.
pub open spec fn expression(shape: Form, typ: Seq<char>, size: int) -> Seq<char> {
    let n = decimal_text(size);
    match shape {
        Form::VarOpaque => "new _xdrJsSerialize.default.VarOpaque("@ + n + ")"@,
        Form::FixedOpaque => "new _xdrJsSerialize.default.FixedOpaque("@ + n + ")"@,
        Form::VarArrayOfBuiltIn => "new _xdrJsSerialize.default.VarArray("@ + n
            + ", () => new _xdrJsSerialize.default."@ + typ + "())"@,
        Form::VarArrayOfDeclared => "new _xdrJsSerialize.default.VarArray("@ + n + ", "@ + typ
            + ")"@,
        Form::BuiltIn => "new _xdrJsSerialize.default."@ + typ + "()"@,
        Form::FixedArrayOfBuiltIn => "new _xdrJsSerialize.default.FixedArray("@ + n
            + ", () => new _xdrJsSerialize.default."@ + typ + "())"@,
        Form::Declared => typ + "()"@,
        Form::FixedArrayOfDeclared => "new _xdrJsSerialize.default.FixedArray("@ + n + ", "@ + typ
            + ")"@,
        Form::Sized => "new _xdrJsSerialize.default."@ + typ + "('', "@ + n + ")"@,
    }
}

/// The expression that a template writes for an occurrence of type `typ`
/// with dimension `size`. The occurrence's name has no part in it.
pub fn typeconv(name: &str, typ: &str, size: i64, fixed: bool) -> (r: String)
    ensures
        r@ == expression(form_of(typ@, size as int, fixed), typ@, size as int),
{
    let number = format_integer(size);
    let n = number.as_str();
    match form(typ, size, fixed) {
        Form::VarOpaque => join3("new _xdrJsSerialize.default.VarOpaque(", n, ")"),
        Form::FixedOpaque => join3("new _xdrJsSerialize.default.FixedOpaque(", n, ")"),
        Form::VarArrayOfBuiltIn => join5(
            "new _xdrJsSerialize.default.VarArray(",
            n,
            ", () => new _xdrJsSerialize.default.",
            typ,
            "())",
        ),
        Form::VarArrayOfDeclared => join5(
            "new _xdrJsSerialize.default.VarArray(",
            n,
            ", ",
            typ,
            ")",
        ),
        Form::BuiltIn => join3("new _xdrJsSerialize.default.", typ, "()"),
        Form::FixedArrayOfBuiltIn => join5(
            "new _xdrJsSerialize.default.FixedArray(",
            n,
            ", () => new _xdrJsSerialize.default.",
            typ,
            "())",
        ),
        Form::Declared => {
            let mut out = typ.to_owned();
            out.append("()");
            out
        },
        Form::FixedArrayOfDeclared => join5(
            "new _xdrJsSerialize.default.FixedArray(",
            n,
            ", ",
            typ,
            ")",
        ),
        Form::Sized => join5("new _xdrJsSerialize.default.", typ, "('', ", n, ")"),
    }
}

} // verus!
