use xdr_codegen::{
    build_namespaces, build_schema, def_to_column, generate_schema, string_to_basic_type,
    BasicType, Catalog, Column, Def, Error, Namespace, Schema, Struct, Table, Typedef,
};

fn def(name: &str, type_id: &str, fixed_array: bool, array_size: i32) -> Def {
    Def { name: name.to_string(), type_id: type_id.to_string(), fixed_array, array_size }
}

fn field(name: &str, type_id: &str) -> Def {
    def(name, type_id, false, 0)
}

fn basic(name: &str, typ: BasicType) -> Column {
    Column::Basic { name: name.to_string(), typ }
}

fn array(name: &str, fixed: bool, length: u32, child: Column) -> Column {
    Column::Array { name: name.to_string(), fixed, length, child: Box::new(child) }
}

fn typedef(name: &str, child: Column) -> Column {
    Column::Typedef { name: name.to_string(), child: Box::new(child) }
}

fn record(name: &str, children: Vec<Column>) -> Column {
    Column::Struct { name: name.to_string(), children }
}

fn namespace(typedefs: Vec<Def>, structs: Vec<Struct>) -> Namespace {
    Namespace {
        name: "n".to_string(),
        typedefs: typedefs.into_iter().map(|def| Typedef { def }).collect(),
        unions: vec![],
        enums: vec![],
        structs,
    }
}

fn st(name: &str, props: Vec<Def>) -> Struct {
    Struct { name: name.to_string(), props }
}

fn catalog(typedefs: Vec<Def>, structs: Vec<Struct>) -> Catalog {
    Catalog::new(&vec![namespace(typedefs, structs)])
}

fn point() -> Struct {
    st("Point3D", vec![field("x", "int"), field("y", "int"), field("z", "int")])
}

fn point_columns() -> Vec<Column> {
    vec![basic("x", BasicType::Int), basic("y", BasicType::Int), basic("z", BasicType::Int)]
}

#[test]
fn every_primitive_has_its_kind() {
    assert_eq!(string_to_basic_type("boolean"), Ok(BasicType::Boolean));
    assert_eq!(string_to_basic_type("string"), Ok(BasicType::String));
    assert_eq!(string_to_basic_type("opaque"), Ok(BasicType::Opaque));
    assert_eq!(string_to_basic_type("int"), Ok(BasicType::Int));
    assert_eq!(string_to_basic_type("unsigned int"), Ok(BasicType::UnsignedInt));
    assert_eq!(string_to_basic_type("hyper"), Ok(BasicType::Hyper));
    assert_eq!(string_to_basic_type("unsigned hyper"), Ok(BasicType::UnsignedHyper));
    assert_eq!(string_to_basic_type("float"), Ok(BasicType::Float));
    assert_eq!(string_to_basic_type("double"), Ok(BasicType::Double));
    assert_eq!(string_to_basic_type(""), Err(Error::Resolution));
    assert_eq!(string_to_basic_type("Int"), Err(Error::Resolution));
    assert_eq!(string_to_basic_type("bool"), Err(Error::Resolution));
    assert_eq!(string_to_basic_type("unsigned  int"), Err(Error::Resolution));
}

#[test]
fn primitive_fields() {
    let c = catalog(vec![], vec![]);
    assert_eq!(def_to_column(field("a", "int"), &c), Ok(basic("a", BasicType::Int)));
    assert_eq!(
        def_to_column(def("a", "int", true, 4), &c),
        Ok(array("a", true, 4, basic("a", BasicType::Int)))
    );
    assert_eq!(
        def_to_column(def("a", "hyper", false, 2147483647), &c),
        Ok(array("a", false, 2147483647, basic("a", BasicType::Hyper)))
    );
    assert_eq!(
        def_to_column(def("a", "int", false, -1), &c),
        Ok(array("a", false, 4294967295, basic("a", BasicType::Int)))
    );
}

#[test]
fn string_and_opaque_are_no_arrays() {
    let c = catalog(vec![], vec![]);
    assert_eq!(def_to_column(def("s", "string", false, 16), &c), Ok(basic("s", BasicType::String)));
    assert_eq!(def_to_column(def("o", "opaque", true, 32), &c), Ok(basic("o", BasicType::Opaque)));
}

#[test]
fn unknown_name_is_a_resolution_error() {
    let c = catalog(vec![], vec![point()]);
    assert_eq!(def_to_column(field("a", "Missing"), &c), Err(Error::Resolution));
    assert_eq!(def_to_column(def("a", "Missing", true, 3), &c), Err(Error::Resolution));
    let inside = catalog(vec![], vec![st("S", vec![field("ok", "int"), field("bad", "Missing")])]);
    assert_eq!(def_to_column(field("a", "S"), &inside), Err(Error::Resolution));
}

#[test]
fn void_arm_gives_no_column() {
    let void = def("void", "", false, 0);
    assert_eq!(def_to_column(void.clone(), &catalog(vec![], vec![])), Err(Error::Resolution));
    assert_eq!(
        def_to_column(void, &catalog(vec![field("T", "int")], vec![point()])),
        Err(Error::Resolution)
    );
    let arm = build_namespaces("namespace n { union U switch (E e) { case A: void; } }".to_string())
        .unwrap()
        .remove(0)
        .unions
        .remove(0)
        .switch
        .cases
        .remove(0)
        .ret_type;
    assert_eq!(def_to_column(arm, &catalog(vec![], vec![])), Err(Error::Resolution));
}

#[test]
fn struct_field_expands_to_its_fields() {
    let c = catalog(vec![], vec![point()]);
    assert_eq!(def_to_column(field("p", "Point3D"), &c), Ok(record("p", point_columns())));
}

#[test]
fn array_of_struct_keeps_its_dimension() {
    let c = catalog(vec![], vec![point()]);
    assert_eq!(
        def_to_column(def("p", "Point3D", true, 3), &c),
        Ok(array("p", true, 3, record("p", point_columns())))
    );
    assert_eq!(
        def_to_column(def("ps", "Point3D", false, 2147483647), &c),
        Ok(array("ps", false, 2147483647, record("ps", point_columns())))
    );
}

#[test]
fn array_of_a_struct_that_fails() {
    let c = catalog(
        vec![],
        vec![st("Bad", vec![field("x", "Missing")]), st("Own", vec![def("o", "Own", true, 2)])],
    );
    assert_eq!(def_to_column(def("b", "Bad", true, 3), &c), Err(Error::Resolution));
    assert_eq!(def_to_column(def("o", "Own", false, 3), &c), Err(Error::Recursion));
}

#[test]
fn typedef_of_array_of_primitive() {
    let c = catalog(vec![def("Ints", "int", true, 3)], vec![]);
    assert_eq!(
        def_to_column(field("v", "Ints"), &c),
        Ok(typedef("v", array("Ints", true, 3, basic("Ints", BasicType::Int))))
    );
}

#[test]
fn typedef_of_array_of_struct() {
    let c = catalog(vec![def("Vec3", "Point3D", true, 3)], vec![point()]);
    assert_eq!(
        def_to_column(field("v", "Vec3"), &c),
        Ok(typedef("v", array("Vec3", true, 3, record("Vec3", point_columns()))))
    );
}

#[test]
fn typedef_of_array_of_struct_from_source() {
    let namespaces = build_namespaces(
        "namespace n { struct Shape { Vec3 corner; } typedef Point3D Vec3[3]; struct Point3D { int x; int y; int z; } }"
            .to_string(),
    )
    .unwrap();
    let got = generate_schema(namespaces, &vec!["Shape".to_string()]).unwrap();
    assert_eq!(got.tables.len(), 1);
    assert_eq!(
        got.tables[0].columns,
        vec![typedef("corner", array("Vec3", true, 3, record("Vec3", point_columns())))]
    );
}

#[test]
fn array_of_typedef_of_array_of_struct() {
    let c = catalog(vec![def("Vec3", "Point3D", true, 3)], vec![point()]);
    assert_eq!(
        def_to_column(def("vs", "Vec3", false, 8), &c),
        Ok(typedef(
            "vs",
            array(
                "vs",
                false,
                8,
                typedef("vs", array("Vec3", true, 3, record("Vec3", point_columns())))
            )
        ))
    );
}

#[test]
fn array_of_typedef_unwraps_layer_by_layer() {
    let c = catalog(vec![field("Id", "hyper")], vec![]);
    assert_eq!(
        def_to_column(def("ids", "Id", false, 8), &c),
        Ok(typedef(
            "ids",
            array("ids", false, 8, typedef("ids", basic("Id", BasicType::Hyper)))
        ))
    );
}

#[test]
fn typedef_of_typedef() {
    let c = catalog(vec![field("A", "B"), field("B", "string")], vec![]);
    assert_eq!(
        def_to_column(field("x", "A"), &c),
        Ok(typedef("x", typedef("A", basic("B", BasicType::String))))
    );
}

#[test]
fn typedef_wins_over_a_struct_of_the_same_name() {
    let both = catalog(vec![field("Thing", "int")], vec![st("Thing", vec![field("x", "hyper")])]);
    let only_typedef = catalog(vec![field("Thing", "int")], vec![]);
    let want = || typedef("t", basic("Thing", BasicType::Int));
    assert_eq!(def_to_column(field("t", "Thing"), &both), Ok(want()));
    assert_eq!(def_to_column(field("t", "Thing"), &only_typedef), Ok(want()));
    let only_struct = catalog(vec![], vec![st("Thing", vec![field("x", "hyper")])]);
    assert_eq!(
        def_to_column(field("t", "Thing"), &only_struct),
        Ok(record("t", vec![basic("x", BasicType::Hyper)]))
    );
}

#[test]
fn last_declaration_of_a_name_stands() {
    let c = catalog(vec![field("T", "int"), field("T", "hyper")], vec![]);
    assert_eq!(def_to_column(field("t", "T"), &c), Ok(typedef("t", basic("T", BasicType::Hyper))));
}

#[test]
fn recursion_is_rejected() {
    let own = catalog(vec![], vec![st("Node", vec![field("value", "int"), field("next", "Node")])]);
    assert_eq!(def_to_column(field("n", "Node"), &own), Err(Error::Recursion));
    let alias = catalog(vec![field("T", "T")], vec![]);
    assert_eq!(def_to_column(field("t", "T"), &alias), Err(Error::Recursion));
    let round = catalog(
        vec![field("A", "S")],
        vec![st("S", vec![field("inner", "B")]), st("B", vec![def("back", "A", false, 4)])],
    );
    assert_eq!(def_to_column(field("x", "A"), &round), Err(Error::Recursion));
    assert_eq!(def_to_column(field("x", "B"), &round), Err(Error::Recursion));
}

#[test]
fn a_type_may_be_used_twice_side_by_side() {
    let c = catalog(
        vec![],
        vec![st("Pair", vec![field("a", "Point3D"), field("b", "Point3D")]), point()],
    );
    assert_eq!(
        def_to_column(field("p", "Pair"), &c),
        Ok(record("p", vec![record("a", point_columns()), record("b", point_columns())]))
    );
}

#[test]
fn first_failing_field_decides_the_error() {
    let c = catalog(
        vec![field("Loop", "Loop")],
        vec![
            st("First", vec![field("a", "Missing"), field("b", "Loop")]),
            st("Second", vec![field("a", "Loop"), field("b", "Missing")]),
        ],
    );
    assert_eq!(def_to_column(field("x", "First"), &c), Err(Error::Resolution));
    assert_eq!(def_to_column(field("x", "Second"), &c), Err(Error::Recursion));
}

#[test]
fn schema_of_marked_structs() {
    let namespaces = build_namespaces(
        "namespace n { struct Account { Id owner; Point3D at; string name<32>; } struct Other { int x; } typedef unsigned hyper Id; struct Point3D { int x; int y; int z; } }"
            .to_string(),
    )
    .unwrap();
    let got = generate_schema(namespaces, &vec!["Account".to_string()]).unwrap();
    let want = Schema {
        tables: vec![Table {
            name: "Account".to_string(),
            columns: vec![
                typedef("owner", basic("Id", BasicType::UnsignedHyper)),
                record("at", point_columns()),
                basic("name", BasicType::String),
            ],
        }],
    };
    assert_eq!(got, want);
}

#[test]
fn schema_keeps_declaration_order_of_tables() {
    let namespaces = vec![
        namespace(vec![], vec![st("B", vec![field("x", "int")]), st("A", vec![])]),
        namespace(vec![], vec![st("C", vec![field("y", "T")])]),
        namespace(vec![field("T", "double")], vec![]),
    ];
    let marks = vec!["C".to_string(), "A".to_string(), "B".to_string(), "Nowhere".to_string()];
    let got = generate_schema(namespaces, &marks).unwrap();
    let names: Vec<&str> = got.tables.iter().map(|t| t.name.as_str()).collect();
    assert_eq!(names, vec!["B", "A", "C"]);
    assert_eq!(got.tables[2].columns, vec![typedef("y", basic("T", BasicType::Double))]);
    assert_eq!(got.tables[1].columns, vec![]);
}

#[test]
fn schema_without_marks_is_empty() {
    let namespaces = vec![namespace(vec![], vec![st("S", vec![field("x", "Missing")])])];
    assert_eq!(generate_schema(namespaces, &vec![]), Ok(Schema { tables: vec![] }));
}

#[test]
fn schema_fails_as_its_first_bad_table_does() {
    let namespaces = vec![namespace(
        vec![],
        vec![st("Good", vec![field("x", "int")]), st("Bad", vec![field("x", "Missing")])],
    )];
    let marks = vec!["Good".to_string(), "Bad".to_string()];
    assert_eq!(generate_schema(namespaces, &marks), Err(Error::Resolution));
}

#[test]
fn schema_is_the_same_wherever_the_typedef_stands() {
    let later = build_namespaces(
        "namespace n { struct S { T a; } typedef int T; }".to_string(),
    )
    .unwrap();
    let earlier = build_namespaces(
        "namespace n { typedef int T; struct S { T a; } }".to_string(),
    )
    .unwrap();
    let marks = vec!["S".to_string()];
    let a = generate_schema(later, &marks);
    let b = generate_schema(earlier, &marks);
    assert_eq!(a, b);
    assert_eq!(
        a.unwrap().tables[0].columns,
        vec![typedef("a", basic("T", BasicType::Int))]
    );
}

#[test]
fn build_schema_flattens_the_tables_it_is_given() {
    let c = catalog(vec![], vec![point()]);
    let got = build_schema(&c, vec![st("T", vec![field("p", "Point3D")]), st("U", vec![])]).unwrap();
    assert_eq!(got.tables.len(), 2);
    assert_eq!(got.tables[0].columns, vec![record("p", point_columns())]);
    assert_eq!(got.tables[1], Table { name: "U".to_string(), columns: vec![] });
    assert_eq!(
        build_schema(&c, vec![st("T", vec![field("p", "Nope")])]),
        Err(Error::Resolution)
    );
}

#[test]
fn schema_is_the_same_when_declarations_change_places() {
    let marks = vec!["S".to_string()];
    let one = build_namespaces(
        "namespace n { typedef int A; typedef hyper B; struct P { A a; } struct S { B b; P p[2]; } }"
            .to_string(),
    )
    .unwrap();
    let other = build_namespaces(
        "namespace n { typedef hyper B; typedef int A; struct S { B b; P p[2]; } struct P { A a; } }"
            .to_string(),
    )
    .unwrap();
    let a = generate_schema(one, &marks).unwrap();
    let b = generate_schema(other, &marks).unwrap();
    assert_eq!(a, b);
    assert_eq!(
        a.tables[0].columns,
        vec![
            typedef("b", basic("B", BasicType::Hyper)),
            array("p", true, 2, record("p", vec![typedef("a", basic("A", BasicType::Int))])),
        ]
    );
}
