use xdr_codegen::generator::commonjs::{self, CommonJsGenerator};
use xdr_codegen::generator::js::{self, Form, JsGenerator};
use xdr_codegen::text::{format_integer, parse_integer};
use xdr_codegen::{build_namespaces, Def};

fn def(name: &str, type_id: &str, fixed_array: bool, array_size: i32) -> Def {
    Def { name: name.to_string(), type_id: type_id.to_string(), fixed_array, array_size }
}

#[test]
fn integers_in_decimal() {
    assert_eq!(format_integer(0), "0");
    assert_eq!(format_integer(7), "7");
    assert_eq!(format_integer(10), "10");
    assert_eq!(format_integer(2147483647), "2147483647");
    assert_eq!(format_integer(-1), "-1");
    assert_eq!(format_integer(-120), "-120");
    assert_eq!(format_integer(i64::MAX), "9223372036854775807");
    assert_eq!(format_integer(i64::MIN), "-9223372036854775808");
}

#[test]
fn integers_read_back() {
    assert_eq!(parse_integer("0"), Some(0));
    assert_eq!(parse_integer("007"), Some(7));
    assert_eq!(parse_integer("-12"), Some(-12));
    assert_eq!(parse_integer("+12"), Some(12));
    assert_eq!(parse_integer("2147483647"), Some(2147483647));
    assert_eq!(parse_integer("-2147483648"), Some(-2147483648));
    assert_eq!(parse_integer("2147483648"), None);
    assert_eq!(parse_integer("-2147483649"), None);
    assert_eq!(parse_integer("12345678901234567890123"), None);
    assert_eq!(parse_integer(""), None);
    assert_eq!(parse_integer("-"), None);
    assert_eq!(parse_integer("1-"), None);
    assert_eq!(parse_integer("\u{661}"), None);
    for n in [0i32, 1, -1, 99, -100, i32::MAX, i32::MIN] {
        assert_eq!(parse_integer(&format_integer(n as i64)), Some(n));
    }
}

#[test]
fn js_table() {
    let table = js::type_map();
    for (key, value) in [
        ("boolean", "Bool"),
        ("int", "Int"),
        ("unsigned int", "UInt"),
        ("unsigned hyper", "UHyper"),
        ("hyper", "Hyper"),
        ("string", "Str"),
        ("float", "Float"),
        ("double", "Double"),
        ("void", "Void"),
    ] {
        assert_eq!(table.get(key), Some(&value.to_string()), "{}", key);
        assert_eq!(commonjs::type_map().get(key), Some(&value.to_string()), "{}", key);
    }
    assert_eq!(table.get("opaque"), None);
}

#[test]
fn js_respells() {
    let input = build_namespaces(
        "namespace n { struct S { string s<8>; opaque o[4]; unsigned hyper h; T t; } }".to_string(),
    )
    .unwrap();
    let got = js::process_namespaces(input).unwrap();
    assert_eq!(
        got[0].structs[0].props,
        vec![
            def("s", "Str", false, 8),
            def("o", "opaque", true, 4),
            def("h", "UHyper", false, 0),
            def("t", "T", false, 0),
        ]
    );
    let same = commonjs::process_namespaces(
        build_namespaces("namespace n { typedef double d; }".to_string()).unwrap(),
    )
    .unwrap();
    assert_eq!(same[0].typedefs[0].def, def("d", "Double", false, 0));
}

#[test]
fn kinds_of_js_types() {
    assert!(js::is_array_type("Str"));
    assert!(js::is_array_type("opaque"));
    assert!(!js::is_array_type("string"));
    assert!(!js::is_array_type("Int"));
    for t in ["Void", "Bool", "Int", "Hyper", "UInt", "UHyper", "Float", "Double", "quadruple"] {
        assert!(js::is_built_in(t), "{}", t);
        assert!(js::is_built_in_single(t), "{}", t);
        assert!(commonjs::is_built_in_single(t), "{}", t);
    }
    for t in ["Str", "opaque", "int", "Point", ""] {
        assert!(!js::is_built_in(t), "{}", t);
        assert!(!js::is_built_in_single(t), "{}", t);
    }
    assert!(js::isvoid(""));
    assert!(!js::isvoid("x"));
}

#[test]
fn forms() {
    assert_eq!(js::form("opaque", 0, false), Form::VarOpaque);
    assert_eq!(js::form("opaque", 9, true), Form::FixedOpaque);
    assert_eq!(js::form("Int", 3, false), Form::VarArrayOfBuiltIn);
    assert_eq!(js::form("Point", 3, false), Form::VarArrayOfDeclared);
    assert_eq!(js::form("Int", 0, false), Form::BuiltIn);
    assert_eq!(js::form("Int", 0, true), Form::BuiltIn);
    assert_eq!(js::form("Int", 3, true), Form::FixedArrayOfBuiltIn);
    assert_eq!(js::form("Point", 0, false), Form::Declared);
    assert_eq!(js::form("Point", 0, true), Form::Declared);
    assert_eq!(js::form("Point", 3, true), Form::FixedArrayOfDeclared);
    assert_eq!(js::form("Str", 16, false), Form::Sized);
    assert_eq!(js::form("Str", 0, true), Form::Sized);
    assert_eq!(js::form("Int", -1, false), Form::Sized);
    assert_eq!(js::form("Point", -1, true), Form::Sized);
}

#[test]
fn js_expressions() {
    assert_eq!(js::typeconv("f", "opaque", 16, false), "new types.VarOpaque(16)");
    assert_eq!(js::typeconv("f", "opaque", 16, true), "new types.FixedOpaque(16)");
    assert_eq!(js::typeconv("f", "Int", 5, false), "new types.VarArray(5, () => new Int())");
    assert_eq!(js::typeconv("f", "Point", 5, false), "new types.VarArray(5, Point)");
    assert_eq!(js::typeconv("f", "Int", 0, false), "new types.Int()");
    assert_eq!(js::typeconv("f", "Int", 5, true), "new types.FixedArray(5, () => new Int())");
    assert_eq!(js::typeconv("f", "Point", 0, false), "Point()");
    assert_eq!(js::typeconv("f", "Point", 5, true), "new types.FixedArray(5, Point)");
    assert_eq!(js::typeconv("f", "Str", 2147483647, false), "new types.Str(2147483647)");
    assert_eq!(js::typeconv("f", "Str", 0, false), "new types.Str(0)");
    assert_eq!(js::typeconv("other", "Point", -3, false), "new types.Point(-3)");
}

#[test]
fn commonjs_expressions() {
    let p = "new _xdrJsSerialize.default.";
    assert_eq!(commonjs::typeconv("f", "opaque", 16, false), format!("{}VarOpaque(16)", p));
    assert_eq!(commonjs::typeconv("f", "opaque", 16, true), format!("{}FixedOpaque(16)", p));
    assert_eq!(
        commonjs::typeconv("f", "Int", 5, false),
        "new _xdrJsSerialize.default.VarArray(5, () => new _xdrJsSerialize.default.Int())"
    );
    assert_eq!(commonjs::typeconv("f", "Point", 5, false), format!("{}VarArray(5, Point)", p));
    assert_eq!(commonjs::typeconv("f", "Int", 0, false), format!("{}Int()", p));
    assert_eq!(
        commonjs::typeconv("f", "Int", 5, true),
        "new _xdrJsSerialize.default.FixedArray(5, () => new _xdrJsSerialize.default.Int())"
    );
    assert_eq!(commonjs::typeconv("f", "Point", 0, false), "Point()");
    assert_eq!(commonjs::typeconv("f", "Point", 5, true), format!("{}FixedArray(5, Point)", p));
    assert_eq!(commonjs::typeconv("f", "Str", 16, false), format!("{}Str('', 16)", p));
}

#[test]
fn js_generators_have_defaults() {
    let _js = JsGenerator::default();
    let _cjs = CommonJsGenerator::default();
}
