use xdr_codegen::builder::{
    build_case, build_def, build_enum, build_enum_val, build_file, build_namespace, build_struct,
    build_switch, build_typedef, build_union, get_array_info, name_from_bracket_start,
    type_id_from_single_param, void_def,
};
use xdr_codegen::{Def, EnumValue, Error, Node, Rule, Switch, UNBOUNDED};

fn token(rule: Rule, text: &str) -> Node {
    Node::token(rule, text.to_string())
}

fn branch(rule: Rule, inner: Vec<Node>) -> Node {
    Node::branch(rule, inner)
}

fn header(name: &str) -> Node {
    branch(Rule::BracketStart, vec![token(Rule::Identifier, name)])
}

fn suffix(rule: Rule, text: &str) -> Node {
    branch(Rule::ArrayDef, vec![token(rule, text)])
}

fn def(name: &str, type_id: &str, fixed_array: bool, array_size: i32) -> Def {
    Def { name: name.to_string(), type_id: type_id.to_string(), fixed_array, array_size }
}

#[test]
fn array_info_of_each_token() {
    assert_eq!(get_array_info(&suffix(Rule::VarArray, "<>")), Ok((false, UNBOUNDED)));
    assert_eq!(get_array_info(&suffix(Rule::VarArray, "<7>")), Ok((false, 7)));
    assert_eq!(get_array_info(&suffix(Rule::FixedArray, "[7]")), Ok((true, 7)));
    assert_eq!(get_array_info(&suffix(Rule::FixedArray, "[0]")), Ok((true, 0)));
    assert_eq!(get_array_info(&suffix(Rule::VarArray, "<2147483646>")), Ok((false, 2147483646)));
}

#[test]
fn array_info_without_a_token_is_unbounded() {
    assert_eq!(get_array_info(&branch(Rule::ArrayDef, vec![])), Ok((false, UNBOUNDED)));
    assert_eq!(
        get_array_info(&branch(Rule::ArrayDef, vec![token(Rule::Identifier, "[7]")])),
        Ok((false, UNBOUNDED))
    );
}

#[test]
fn array_info_takes_the_last_token() {
    let two = branch(
        Rule::ArrayDef,
        vec![token(Rule::FixedArray, "[5]"), token(Rule::VarArray, "<>")],
    );
    assert_eq!(get_array_info(&two), Ok((false, UNBOUNDED)));
    let other = branch(
        Rule::ArrayDef,
        vec![token(Rule::VarArray, "<>"), token(Rule::FixedArray, "[5]")],
    );
    assert_eq!(get_array_info(&other), Ok((true, 5)));
}

#[test]
fn array_info_rejects_what_is_no_bound() {
    for text in ["", "<", "7", "<7", "7>", "[7>", "<x>", "<-7>", "<+7>", "< 7>", "<2147483647>", "<4294967303>"] {
        assert_eq!(get_array_info(&suffix(Rule::VarArray, text)), Err(Error::Shape), "{}", text);
    }
    for text in ["[]", "<7>", "[7", "[x]", "[2147483647]"] {
        assert_eq!(get_array_info(&suffix(Rule::FixedArray, text)), Err(Error::Shape), "{}", text);
    }
    let second_is_bad = branch(
        Rule::ArrayDef,
        vec![token(Rule::FixedArray, "[x]"), token(Rule::FixedArray, "[5]")],
    );
    assert_eq!(get_array_info(&second_is_bad), Err(Error::Shape));
}

#[test]
fn bracket_start_gives_its_first_identifier() {
    assert_eq!(name_from_bracket_start(&header("S")), Ok("S".to_string()));
    let two = branch(
        Rule::BracketStart,
        vec![token(Rule::Number, "1"), token(Rule::Identifier, "a"), token(Rule::Identifier, "b")],
    );
    assert_eq!(name_from_bracket_start(&two), Ok("a".to_string()));
    assert_eq!(name_from_bracket_start(&branch(Rule::BracketStart, vec![])), Err(Error::Shape));
    assert_eq!(
        name_from_bracket_start(&branch(Rule::BracketStart, vec![token(Rule::Types, "int")])),
        Err(Error::Shape)
    );
}

#[test]
fn def_takes_type_then_name() {
    let plain = branch(Rule::TypeDecl, vec![token(Rule::Types, "int"), token(Rule::Identifier, "a")]);
    assert_eq!(build_def(&plain), Ok(def("a", "int", false, 0)));
    let only_type = branch(Rule::TypeDecl, vec![token(Rule::Identifier, "Point")]);
    assert_eq!(build_def(&only_type), Ok(def("", "Point", false, 0)));
    assert_eq!(build_def(&branch(Rule::TypeDecl, vec![])), Ok(def("", "", false, 0)));
    let third_is_ignored = branch(
        Rule::TypeDecl,
        vec![
            token(Rule::Identifier, "T"),
            token(Rule::Identifier, "first"),
            token(Rule::Identifier, "second"),
        ],
    );
    assert_eq!(build_def(&third_is_ignored), Ok(def("first", "T", false, 0)));
}

#[test]
fn def_with_an_array_suffix() {
    let fixed = branch(
        Rule::TypeDecl,
        vec![token(Rule::Types, "int"), token(Rule::Identifier, "a"), suffix(Rule::FixedArray, "[3]")],
    );
    assert_eq!(build_def(&fixed), Ok(def("a", "int", true, 3)));
    let empty_suffix = branch(
        Rule::TypeDecl,
        vec![token(Rule::Types, "int"), branch(Rule::ArrayDef, vec![])],
    );
    assert_eq!(build_def(&empty_suffix), Ok(def("", "int", false, UNBOUNDED)));
    let bad = branch(
        Rule::TypeDecl,
        vec![token(Rule::Types, "int"), suffix(Rule::FixedArray, "[]")],
    );
    assert_eq!(build_def(&bad), Err(Error::Shape));
}

#[test]
fn typedef_and_struct_from_nodes() {
    let decl = branch(Rule::TypeDecl, vec![token(Rule::Types, "hyper"), token(Rule::Identifier, "Id")]);
    let td = build_typedef(&branch(Rule::Typedef, vec![decl])).unwrap();
    assert_eq!(td.def, def("Id", "hyper", false, 0));
    assert_eq!(build_typedef(&branch(Rule::Typedef, vec![])).unwrap().def, Def::default());

    let field = |ty: &str, name: &str| {
        branch(Rule::TypeDecl, vec![token(Rule::Identifier, ty), token(Rule::Identifier, name)])
    };
    let st = build_struct(&branch(Rule::Struct, vec![header("S"), field("A", "x"), field("B", "y")]))
        .unwrap();
    assert_eq!(st.name, "S");
    assert_eq!(st.props, vec![def("x", "A", false, 0), def("y", "B", false, 0)]);
    let nameless = build_struct(&branch(Rule::Struct, vec![field("A", "x")])).unwrap();
    assert_eq!(nameless.name, "");
    let broken = branch(Rule::Struct, vec![branch(Rule::BracketStart, vec![]), field("A", "x")]);
    assert_eq!(build_struct(&broken), Err(Error::Shape));
}

#[test]
fn enum_from_nodes() {
    let member = |name: &str, number: &str| {
        branch(Rule::EnumDecl, vec![token(Rule::Identifier, name), token(Rule::Number, number)])
    };
    assert_eq!(
        build_enum_val(&member("RED", "2")),
        Ok(EnumValue { name: "RED".to_string(), index: 2 })
    );
    assert_eq!(
        build_enum_val(&member("N", "-7")),
        Ok(EnumValue { name: "N".to_string(), index: -7 })
    );
    assert_eq!(
        build_enum_val(&member("P", "+7")),
        Ok(EnumValue { name: "P".to_string(), index: 7 })
    );
    assert_eq!(
        build_enum_val(&branch(Rule::EnumDecl, vec![])),
        Ok(EnumValue { name: "".to_string(), index: 0 })
    );
    for number in ["", "-", "x", "1x", "2147483648", "-2147483649", "1 "] {
        assert_eq!(build_enum_val(&member("A", number)), Err(Error::Shape), "{}", number);
    }
    let en = build_enum(&branch(Rule::Enum, vec![header("E"), member("RED", "2"), member("GREEN", "5")]))
        .unwrap();
    assert_eq!(en.name, "E");
    assert_eq!(en.values[0].index, 2);
    assert_eq!(en.values[1].index, 5);
    assert_eq!(
        build_enum(&branch(Rule::Enum, vec![header("E"), member("RED", "x")])),
        Err(Error::Shape)
    );
}

#[test]
fn case_and_switch_from_nodes() {
    let void_arm = branch(Rule::CaseStatement, vec![token(Rule::Identifier, "B")]);
    let built = build_case(&void_arm).unwrap();
    assert_eq!(built.value, "B");
    assert_eq!(built.ret_type, def("void", "", false, 0));
    assert_eq!(built.ret_type, void_def());

    let decl = branch(Rule::TypeDecl, vec![token(Rule::Types, "int"), token(Rule::Identifier, "val")]);
    let arm = branch(Rule::CaseStatement, vec![token(Rule::Identifier, "A"), decl]);
    assert_eq!(build_case(&arm).unwrap().ret_type, def("val", "int", false, 0));

    let param = branch(
        Rule::SingleParam,
        vec![token(Rule::Identifier, "E"), token(Rule::Identifier, "disc")],
    );
    assert_eq!(type_id_from_single_param(&param), Ok(("E".to_string(), "disc".to_string())));
    let one = branch(Rule::SingleParam, vec![token(Rule::Identifier, "E")]);
    assert_eq!(type_id_from_single_param(&one), Ok(("E".to_string(), "".to_string())));
    let three = branch(
        Rule::SingleParam,
        vec![
            token(Rule::Identifier, "E"),
            token(Rule::Identifier, "disc"),
            token(Rule::Identifier, "more"),
        ],
    );
    assert_eq!(type_id_from_single_param(&three), Ok(("E".to_string(), "disc".to_string())));

    let sw = build_switch(&branch(Rule::Switch, vec![param, arm, void_arm])).unwrap();
    assert_eq!(sw.enum_type, "E");
    assert_eq!(sw.enum_name, "disc");
    assert_eq!(sw.cases.len(), 2);
    assert_eq!(sw.cases[1].ret_type.name, "void");
    assert_eq!(build_switch(&branch(Rule::Switch, vec![])).unwrap(), Switch::default());
}

#[test]
fn union_and_namespace_from_nodes() {
    let un = build_union(&branch(Rule::Union, vec![token(Rule::Identifier, "U")])).unwrap();
    assert_eq!(un.name, "U");
    assert_eq!(un.switch, Switch::default());

    let bad_struct = branch(Rule::Struct, vec![branch(Rule::BracketStart, vec![])]);
    let ns = branch(Rule::Namespace, vec![header("n"), bad_struct]);
    assert_eq!(build_namespace(&ns), Err(Error::Shape));
    assert_eq!(build_file(&branch(Rule::File, vec![ns])), Err(Error::Shape));

    let good = branch(
        Rule::Namespace,
        vec![
            header("n"),
            branch(Rule::Struct, vec![header("S")]),
            branch(Rule::Typedef, vec![]),
            branch(Rule::Enum, vec![header("E")]),
            branch(Rule::Union, vec![token(Rule::Identifier, "U")]),
            token(Rule::Number, "7"),
        ],
    );
    let built = build_namespace(&good).unwrap();
    assert_eq!(built.name, "n");
    assert_eq!(built.structs.len(), 1);
    assert_eq!(built.typedefs.len(), 1);
    assert_eq!(built.enums.len(), 1);
    assert_eq!(built.unions.len(), 1);
    assert_eq!(build_namespace(&branch(Rule::Namespace, vec![])).unwrap().name, "");
}
