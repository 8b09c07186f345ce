use xdr_codegen::generator::go::{self, GoGenerator, StructHelper};
use xdr_codegen::generator::rust::{self, RustGenerator};
use xdr_codegen::generator::{apply_type_map, TypeMap};
use xdr_codegen::{build_namespaces, Case, Def, Namespace, Struct, Switch, Typedef, Union};

fn def(name: &str, type_id: &str, fixed_array: bool, array_size: i32) -> Def {
    Def { name: name.to_string(), type_id: type_id.to_string(), fixed_array, array_size }
}

fn sample() -> Vec<Namespace> {
    build_namespaces(
        "namespace test { typedef hyper stamp; struct S { int a; Other b<4>; string c; } enum E { A = 3 } union U switch (E e) { case A: unsigned int n; case B: void; } }"
            .to_string(),
    )
    .unwrap()
}

#[test]
fn type_map_holds_what_was_put_in() {
    let mut table = TypeMap::new();
    assert_eq!(table.get("int"), None);
    table.insert("int", "i32");
    table.insert("hyper", "i64");
    assert_eq!(table.get("int"), Some(&"i32".to_string()));
    assert_eq!(table.get("hyper"), Some(&"i64".to_string()));
    assert_eq!(table.get("i32"), None);
    table.insert("int", "int32");
    assert_eq!(table.get("int"), Some(&"int32".to_string()));
}

#[test]
fn mapping_respells_primitives_only() {
    let mut table = TypeMap::new();
    table.insert("int", "i32");
    table.insert("unsigned int", "u32");
    table.insert("hyper", "i64");
    let got = apply_type_map(sample(), &table).unwrap();
    let ns = &got[0];
    assert_eq!(ns.name, "test");
    assert_eq!(ns.typedefs, vec![Typedef { def: def("stamp", "i64", false, 0) }]);
    assert_eq!(
        ns.structs,
        vec![Struct {
            name: "S".to_string(),
            props: vec![
                def("a", "i32", false, 0),
                def("b", "Other", false, 4),
                def("c", "string", false, 0),
            ],
        }]
    );
    assert_eq!(ns.enums, sample()[0].enums);
    assert_eq!(
        ns.unions,
        vec![Union {
            name: "U".to_string(),
            switch: Switch {
                enum_name: "e".to_string(),
                enum_type: "E".to_string(),
                cases: vec![
                    Case { value: "A".to_string(), ret_type: def("n", "u32", false, 0) },
                    Case { value: "B".to_string(), ret_type: def("void", "", false, 0) },
                ],
            },
        }]
    );
}

#[test]
fn mapping_with_an_empty_table_changes_nothing() {
    assert_eq!(apply_type_map(sample(), &TypeMap::new()), Ok(sample()));
    assert_eq!(apply_type_map(vec![], &go::type_map()), Ok(vec![]));
}

#[test]
fn mapping_twice_is_mapping_once() {
    let once = apply_type_map(sample(), &rust::type_map()).unwrap();
    let twice = apply_type_map(apply_type_map(sample(), &rust::type_map()).unwrap(), &rust::type_map());
    assert_eq!(twice, Ok(once));
}

#[test]
fn mapping_does_not_depend_on_declaration_order() {
    let later = build_namespaces("namespace n { struct S { T a; int b; } typedef int T; }".to_string())
        .unwrap();
    let earlier = build_namespaces("namespace n { typedef int T; struct S { T a; int b; } }".to_string())
        .unwrap();
    let a = apply_type_map(later, &rust::type_map()).unwrap();
    let b = apply_type_map(earlier, &rust::type_map()).unwrap();
    assert_eq!(a, b);
    assert_eq!(a[0].structs[0].props, vec![def("a", "T", false, 0), def("b", "i32", false, 0)]);
    assert_eq!(a[0].typedefs[0].def, def("T", "i32", false, 0));
}

#[test]
fn go_table() {
    let table = go::type_map();
    for (key, value) in [
        ("boolean", "bool"),
        ("opaque", "byte"),
        ("int", "int32"),
        ("unsigned int", "uint32"),
        ("hyper", "int64"),
        ("unsigned hyper", "uint64"),
        ("float", "float32"),
        ("double", "float64"),
    ] {
        assert_eq!(table.get(key), Some(&value.to_string()), "{}", key);
    }
    assert_eq!(table.get("string"), None);
    assert_eq!(table.get("void"), None);
}

#[test]
fn rust_table() {
    let table = rust::type_map();
    for (key, value) in [
        ("boolean", "bool"),
        ("opaque", "u8"),
        ("int", "i32"),
        ("unsigned int", "u32"),
        ("hyper", "i64"),
        ("unsigned hyper", "u64"),
        ("float", "f32"),
        ("double", "f64"),
        ("string", "String"),
    ] {
        assert_eq!(table.get(key), Some(&value.to_string()), "{}", key);
    }
    assert_eq!(table.get("String"), None);
}

#[test]
fn go_capitalises_the_names_of_occurrences() {
    let got = go::process_namespaces(sample()).unwrap();
    let ns = &got[0];
    assert_eq!(ns.name, "test");
    assert_eq!(ns.typedefs[0].def, def("Stamp", "int64", false, 0));
    assert_eq!(ns.structs[0].name, "S");
    assert_eq!(
        ns.structs[0].props,
        vec![
            def("A", "int32", false, 0),
            def("B", "Other", false, 4),
            def("C", "string", false, 0),
        ]
    );
    assert_eq!(ns.unions[0].name, "U");
    assert_eq!(ns.unions[0].switch.enum_name, "e");
    assert_eq!(ns.unions[0].switch.cases[0].ret_type, def("N", "uint32", false, 0));
    assert_eq!(ns.unions[0].switch.cases[1].ret_type, def("Void", "", false, 0));
    assert_eq!(ns.enums, sample()[0].enums);
}

#[test]
fn go_struct_namespace_is_processed() {
    let props = vec![
        def("stringTest", "string", false, 0),
        def("BooleanTest", "boolean", false, 0),
        def("float_test", "float", false, 0),
        def("int_test", "int", false, 0),
        def("unsigned_int_test", "unsigned int", false, 0),
        def("hyper_test", "hyper", false, 0),
        def("unsigned_hyper_test", "unsigned hyper", false, 0),
        def("struct_test", "TestStruct2", false, 0),
        def("array_test", "unsigned hyper", false, 5),
        def("array_struct_test", "TestStruct2", false, 5),
        def("fixed_array_test", "unsigned hyper", true, 5),
        def("fixed_array_struct_test", "TestStruct2", true, 5),
    ];
    let input = vec![Namespace {
        enums: vec![],
        typedefs: vec![],
        structs: vec![
            Struct { name: "TestStruct".to_string(), props },
            Struct {
                name: "TestStruct2".to_string(),
                props: vec![def("stringTest", "string", false, 0)],
            },
        ],
        unions: vec![],
        name: "test".to_string(),
    }];
    let helper = StructHelper::new(&input);
    let got = go::process_namespaces(input).unwrap();
    let want = vec![
        def("StringTest", "string", false, 0),
        def("BooleanTest", "bool", false, 0),
        def("Float_test", "float32", false, 0),
        def("Int_test", "int32", false, 0),
        def("Unsigned_int_test", "uint32", false, 0),
        def("Hyper_test", "int64", false, 0),
        def("Unsigned_hyper_test", "uint64", false, 0),
        def("Struct_test", "TestStruct2", false, 0),
        def("Array_test", "uint64", false, 5),
        def("Array_struct_test", "TestStruct2", false, 5),
        def("Fixed_array_test", "uint64", true, 5),
        def("Fixed_array_struct_test", "TestStruct2", true, 5),
    ];
    assert_eq!(got[0].structs[0].name, "TestStruct");
    assert_eq!(got[0].structs[0].props, want);
    assert!(helper.knows("TestStruct2"));
    assert!(helper.knows("TestStruct"));
    assert!(!helper.knows("uint64"));
    assert_eq!(go::to_first_lower("StringTest"), "stringTest");
    assert_eq!(go::to_first_lower("BooleanTest"), "booleanTest");
    assert_eq!(go::to_first_lower("Float_test"), "float_test");
    assert!(go::bignum("int64") && go::bignum("uint64"));
}

#[test]
fn go_typedef_namespace_is_processed() {
    let input = vec![Namespace {
        enums: vec![],
        structs: vec![],
        typedefs: vec![Typedef { def: def("testt", "string", false, 0) }],
        unions: vec![],
        name: "test".to_string(),
    }];
    let got = go::process_namespaces(input).unwrap();
    assert_eq!(got[0].typedefs[0].def, def("Testt", "string", false, 0));
}

#[test]
fn capitals_of_names() {
    let name = |n: &str| {
        let input = vec![Namespace {
            name: String::new(),
            typedefs: vec![Typedef { def: def(n, "int", false, 0) }],
            unions: vec![],
            enums: vec![],
            structs: vec![],
        }];
        go::process_namespaces(input).unwrap().remove(0).typedefs.remove(0).def.name
    };
    assert_eq!(name("abc"), "Abc");
    assert_eq!(name("zed"), "Zed");
    assert_eq!(name("Abc"), "Abc");
    assert_eq!(name("_x"), "_x");
    assert_eq!(name("9lives"), "9lives");
    assert_eq!(name(""), "");
    assert_eq!(name("x"), "X");
    assert_eq!(name("\u{e9}t\u{e9}"), "\u{e9}t\u{e9}");
    assert_eq!(name("{x"), "{x");
    assert_eq!(name("`x"), "`x");
}

#[test]
fn first_letter_in_lowercase() {
    assert_eq!(go::to_first_lower("Hello"), "hello");
    assert_eq!(go::to_first_lower("hello"), "hello");
    assert_eq!(go::to_first_lower("H"), "h");
    assert_eq!(go::to_first_lower(""), "");
    assert_eq!(go::to_first_lower("ABC"), "aBC");
    assert_eq!(go::to_first_lower("\u{c9}cole"), "\u{e9}cole");
    assert_eq!(go::to_first_lower("\u{130}x"), "i\u{307}x");
    assert_eq!(go::to_first_lower("_A"), "_A");
}

#[test]
fn go_template_questions() {
    assert!(go::eqstr("string"));
    assert!(!go::eqstr("String"));
    assert!(go::neqstr("int32"));
    assert!(!go::neqstr("string"));
    assert!(go::bignum("uint64"));
    assert!(go::bignum("int64"));
    assert!(!go::bignum("int32"));
    assert!(go::isvoid(""));
    assert!(!go::isvoid("void"));
}

#[test]
fn rust_template_questions() {
    assert!(rust::eqstr("String"));
    assert!(!rust::eqstr("string"));
    assert!(rust::neqstr("string"));
    assert!(!rust::neqstr("String"));
    assert!(rust::isvoid(""));
    assert!(!rust::isvoid(" "));
}

#[test]
fn rust_respells_without_renaming() {
    let got = rust::process_namespaces(sample()).unwrap();
    let ns = &got[0];
    assert_eq!(ns.typedefs[0].def, def("stamp", "i64", false, 0));
    assert_eq!(
        ns.structs[0].props,
        vec![
            def("a", "i32", false, 0),
            def("b", "Other", false, 4),
            def("c", "String", false, 0),
        ]
    );
    assert_eq!(ns.unions[0].switch.cases[0].ret_type, def("n", "u32", false, 0));
}

#[test]
fn struct_helper_knows_the_declared_structs() {
    let namespaces = build_namespaces(
        "namespace a { struct One { } typedef int Alias; } namespace b { struct Two { } enum E { } }"
            .to_string(),
    )
    .unwrap();
    let helper = StructHelper::new(&namespaces);
    assert!(helper.knows("One"));
    assert!(helper.knows("Two"));
    assert!(!helper.knows("Alias"));
    assert!(!helper.knows("E"));
    assert!(!helper.knows(""));
    assert!(helper.knows_quoted("\"One\""));
    assert!(helper.knows_quoted("'Two'"));
    assert!(!helper.knows_quoted("One"));
    assert!(!helper.knows_quoted("\"Three\""));
    assert!(!helper.knows_quoted("\""));
    assert!(!helper.knows_quoted(""));
    assert!(!StructHelper::new(&vec![]).knows_quoted("\"One\""));
}

#[test]
fn generators_have_defaults() {
    let _go = GoGenerator::default();
    let rust = RustGenerator::default();
    assert!(!rust.include_macro);
    assert!(RustGenerator { include_macro: true }.include_macro);
}
