use xdr_codegen::{
    build_namespaces, Case, Def, Enum, EnumValue, Error, Namespace, Node, Rule, Struct, Switch,
    Typedef, Union, XDRParser, UNBOUNDED,
};

fn def(name: &str, type_id: &str, fixed_array: bool, array_size: i32) -> Def {
    Def { name: name.to_string(), type_id: type_id.to_string(), fixed_array, array_size }
}

fn parse(text: &str) -> Result<Vec<Namespace>, Error> {
    build_namespaces(text.to_string())
}

#[test]
fn end_to_end_struct() {
    let got = parse("namespace ns { struct S { int a; string b<16>; } }").unwrap();
    let want = vec![Namespace {
        name: "ns".to_string(),
        typedefs: vec![],
        unions: vec![],
        enums: vec![],
        structs: vec![Struct {
            name: "S".to_string(),
            props: vec![def("a", "int", false, 0), def("b", "string", false, 16)],
        }],
    }];
    assert_eq!(got, want);
}

#[test]
fn array_bounds() {
    let got = parse("namespace n { struct S { int a<>; int b<7>; int c[7]; } }").unwrap();
    let props = &got[0].structs[0].props;
    assert_eq!(props[0], def("a", "int", false, UNBOUNDED));
    assert_eq!(props[0].array_size, 2147483647);
    assert_eq!(props[1], def("b", "int", false, 7));
    assert_eq!(props[2], def("c", "int", true, 7));
}

#[test]
fn array_suffix_before_the_name() {
    let got = parse("namespace n { struct S { int<> a; int<7> b; int[7] c; opaque<3>; } }").unwrap();
    let props = &got[0].structs[0].props;
    assert_eq!(props[0], def("a", "int", false, UNBOUNDED));
    assert_eq!(props[1], def("b", "int", false, 7));
    assert_eq!(props[2], def("c", "int", true, 7));
    assert_eq!(props[3], def("", "opaque", false, 3));
}

#[test]
fn full_example() {
    let got = parse(
        "namespace ns { struct S { int a; string b<16>; } enum E { A = 0, B = 1 } union U switch (E disc) { case A: int val; case B: void; } }",
    )
    .unwrap();
    let want = vec![Namespace {
        name: "ns".to_string(),
        typedefs: vec![],
        unions: vec![Union {
            name: "U".to_string(),
            switch: Switch {
                enum_name: "disc".to_string(),
                enum_type: "E".to_string(),
                cases: vec![
                    Case { value: "A".to_string(), ret_type: def("val", "int", false, 0) },
                    Case { value: "B".to_string(), ret_type: def("void", "", false, 0) },
                ],
            },
        }],
        enums: vec![Enum {
            name: "E".to_string(),
            values: vec![
                EnumValue { name: "A".to_string(), index: 0 },
                EnumValue { name: "B".to_string(), index: 1 },
            ],
        }],
        structs: vec![Struct {
            name: "S".to_string(),
            props: vec![def("a", "int", false, 0), def("b", "string", false, 16)],
        }],
    }];
    assert_eq!(got, want);
}

#[test]
fn enum_values_are_kept() {
    let got = parse("namespace n { enum E { RED = 2, GREEN = 5 } }").unwrap();
    let values = &got[0].enums[0].values;
    assert_eq!(values.len(), 2);
    assert_eq!(values[0], EnumValue { name: "RED".to_string(), index: 2 });
    assert_eq!(values[1], EnumValue { name: "GREEN".to_string(), index: 5 });
}

#[test]
fn enum_values_may_be_negative_or_absent() {
    let got = parse("namespace n { enum E { LOW = -2147483648, HIGH = 2147483647 } enum F { } }")
        .unwrap();
    assert_eq!(got[0].enums[0].values[0].index, -2147483648);
    assert_eq!(got[0].enums[0].values[1].index, 2147483647);
    assert_eq!(got[0].enums[1], Enum { name: "F".to_string(), values: vec![] });
}

#[test]
fn void_arm_carries_the_void_def() {
    let got = parse("namespace n { union U switch (Kind k) { case NONE: void; } }").unwrap();
    let arm = &got[0].unions[0].switch.cases[0];
    assert_eq!(arm.value, "NONE");
    assert_eq!(arm.ret_type.name, "void");
    assert_eq!(arm.ret_type.type_id, "");
    assert_eq!(arm.ret_type.array_size, 0);
    assert!(!arm.ret_type.fixed_array);
}

#[test]
fn typedefs_and_two_word_primitives() {
    let got = parse(
        "namespace n {\n  typedef unsigned hyper Id;\n  typedef Point3D Vec3[3];\n  typedef unsigned int Flags<>;\n  typedef unsigned count;\n}",
    )
    .unwrap();
    let want = vec![
        Typedef { def: def("Id", "unsigned hyper", false, 0) },
        Typedef { def: def("Vec3", "Point3D", true, 3) },
        Typedef { def: def("Flags", "unsigned int", false, UNBOUNDED) },
        Typedef { def: def("count", "unsigned", false, 0) },
    ];
    assert_eq!(got[0].typedefs, want);
}

#[test]
fn names_that_start_like_keywords() {
    let got = parse("namespace n { struct structure { integer intx; stringy voida; } }").unwrap();
    assert_eq!(got[0].structs[0].name, "structure");
    assert_eq!(got[0].structs[0].props[0], def("intx", "integer", false, 0));
    assert_eq!(got[0].structs[0].props[1], def("voida", "stringy", false, 0));
}

#[test]
fn white_space_and_closing_semicolons() {
    let tight = parse("namespace n{struct S{int a;};enum E{A=1,B=2};union U switch(E e){case A:int x;};};")
        .unwrap();
    let loose = parse(
        "\n\tnamespace n {\r\n struct S { int a ; }\n enum E { A = 1 , B = 2 }\n union U switch ( E e ) { case A : int x ; }\n}\n",
    )
    .unwrap();
    assert_eq!(tight, loose);
    assert_eq!(tight[0].structs[0].props, vec![def("a", "int", false, 0)]);
    assert_eq!(tight[0].unions[0].switch.cases[0].ret_type, def("x", "int", false, 0));
}

#[test]
fn several_namespaces_in_order() {
    let got = parse("namespace a { } namespace b { struct S { } } namespace c { }").unwrap();
    let names: Vec<&str> = got.iter().map(|ns| ns.name.as_str()).collect();
    assert_eq!(names, vec!["a", "b", "c"]);
    assert_eq!(got[1].structs[0], Struct { name: "S".to_string(), props: vec![] });
    assert_eq!(parse(""), Ok(vec![]));
    assert_eq!(parse("  \n "), Ok(vec![]));
}

#[test]
fn declaration_order_does_not_matter_to_the_tree() {
    let later = parse("namespace n { struct S { T a; } typedef int T; enum E { A = 1 } }").unwrap();
    let earlier = parse("namespace n { typedef int T; enum E { A = 1 } struct S { T a; } }").unwrap();
    assert_eq!(later, earlier);
}

#[test]
fn order_within_a_kind_is_kept() {
    let got = parse("namespace n { struct B { } typedef int T; struct A { } }").unwrap();
    assert_eq!(got[0].structs[0].name, "B");
    assert_eq!(got[0].structs[1].name, "A");
}

#[test]
fn grammar_errors() {
    let bad = [
        "namespace ns { struct S { int a } }",
        "namespace ns {",
        "namespace { }",
        "namespace 1ns { }",
        "struct S { }",
        "namespace n { struct S { int a[]; } }",
        "namespace n { struct S { int a[x]; } }",
        "namespace n { struct S { int a< 7 >; } }",
        "namespace n { struct S { int a<7> <8>; } }",
        "namespace n { enum E { A } }",
        "namespace n { enum E { A = 1, } }",
        "namespace n { enum E { A = x } }",
        "namespace n { union U switch (E) { } }",
        "namespace n { union U switch (E e) { case 1: void; } }",
        "namespace n { union U switch (E e) { case A: void } }",
        "namespace n { typedef int T }",
        "namespace n { widget W { } }",
        "namespace n { } trailing",
        "namespace n { struct S { int caf\u{e9}; } }",
        "namespace n { } \u{2028}",
    ];
    for text in bad.iter() {
        assert_eq!(parse(text), Err(Error::Grammar), "{}", text);
    }
}

#[test]
fn numbers_that_do_not_fit_are_shape_errors() {
    assert_eq!(parse("namespace n { struct S { int a<2147483647>; } }"), Err(Error::Shape));
    assert_eq!(parse("namespace n { struct S { int a[2147483647]; } }"), Err(Error::Shape));
    assert_eq!(parse("namespace n { struct S { int a[99999999999999999999]; } }"), Err(Error::Shape));
    assert_eq!(parse("namespace n { enum E { A = 2147483648 } }"), Err(Error::Shape));
    assert_eq!(parse("namespace n { enum E { A = -2147483649 } }"), Err(Error::Shape));
    let largest = parse("namespace n { struct S { int a<2147483646>; int b[0002]; } }").unwrap();
    assert_eq!(largest[0].structs[0].props[0], def("a", "int", false, 2147483646));
    assert_eq!(largest[0].structs[0].props[1], def("b", "int", true, 2));
}

#[test]
fn parse_tree_of_a_struct() {
    let tree = XDRParser::parse("namespace n { struct S { int a<>; } }").unwrap();
    let token = |rule: Rule, text: &str| Node { rule, text: text.to_string(), inner: vec![] };
    let branch = |rule: Rule, inner: Vec<Node>| Node { rule, text: String::new(), inner };
    let want = branch(
        Rule::File,
        vec![branch(
            Rule::Namespace,
            vec![
                branch(Rule::BracketStart, vec![token(Rule::Identifier, "n")]),
                branch(
                    Rule::Struct,
                    vec![
                        branch(Rule::BracketStart, vec![token(Rule::Identifier, "S")]),
                        branch(
                            Rule::TypeDecl,
                            vec![
                                token(Rule::Types, "int"),
                                token(Rule::Identifier, "a"),
                                branch(Rule::ArrayDef, vec![token(Rule::VarArray, "<>")]),
                            ],
                        ),
                    ],
                ),
            ],
        )],
    );
    assert_eq!(tree, want);
    assert_eq!(XDRParser::parse("namespace"), Err(Error::Grammar));
}
