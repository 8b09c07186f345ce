//! The builder: one walk over the parse tree that makes the declaration
//! tree of it.
//!
//! Each `*_of` function says what a node stands for; the function that
//! builds it returns exactly that, or `Error::Shape` where the node's
//! children do not allow it.

use crate::ast::{
    views, Case, CaseView, Def, DefView, Enum, EnumValue, EnumValueView, EnumView, Error,
    Namespace, NamespaceView, Struct, StructView, Switch, SwitchView, Typedef, TypedefView, Union,
    UnionView, UNBOUNDED,
};
use crate::grammar::parse_file;
use crate::parser::XDRParser;
use crate::text::{decimal_within, integer_of, parse_decimal, parse_integer};
use crate::tree::{
    last_or, lemma_selected_fails, select, traverse, Node, NodeView, Rule,
};
use vstd::prelude::*;

verus! {

/// The text of the last node, or nothing where there is none.
pub open spec fn last_text(nodes: Seq<NodeView>) -> Seq<char> {
    if nodes.len() == 0 {
        Seq::empty()
    } else {
        nodes.last().text
    }
}

/// The text of the node at `i`, or nothing where there is none.
pub open spec fn text_at(nodes: Seq<NodeView>, i: int) -> Seq<char> {
    if 0 <= i < nodes.len() {
        nodes[i].text
    } else {
        Seq::empty()
    }
}

/// The name that a block header gives: its first identifier.
pub open spec fn header_name(header: NodeView) -> Option<Seq<char>> {
    let names = select(header.inner, set![Rule::Identifier]);
    if names.len() == 0 {
        None
    } else {
        Some(names[0].text)
    }
}

/// What stands between the two brackets of `text`.
pub open spec fn bracketed(text: Seq<char>, open: char, close: char) -> Option<Seq<char>> {
    if text.len() >= 2 && text[0] == open && text.last() == close {
        Some(text.subrange(1, text.len() - 1))
    } else {
        None
    }
}

/// The bound that `digits` write. A bound stays below `UNBOUNDED`.
pub open spec fn bound_of(digits: Seq<char>) -> Option<i32> {
    match decimal_within(digits, (UNBOUNDED - 1) as nat) {
        Some(v) => Some(v as i32),
        None => None,
    }
}

/// Whether an array token is fixed, and its bound: `<>` is variable and
/// unbounded, `<n>` variable with bound `n`, `[n]` fixed with bound `n`.
pub open spec fn dimension_of(token: NodeView) -> Option<(bool, i32)> {
    if token.rule == Rule::VarArray {
        match bracketed(token.text, '<', '>') {
            Some(digits) => if digits.len() == 0 {
                Some((false, UNBOUNDED))
            } else {
                match bound_of(digits) {
                    Some(v) => Some((false, v)),
                    None => None,
                }
            },
            None => None,
        }
    } else {
        match bracketed(token.text, '[', ']') {
            Some(digits) => match bound_of(digits) {
                Some(v) => Some((true, v)),
                None => None,
            },
            None => None,
        }
    }
}

/// What the array tokens among the nodes say, in order; nothing where one
/// of them says nothing.
pub open spec fn dimensions(nodes: Seq<NodeView>) -> Option<Seq<(bool, i32)>> {
    traverse(
        select(nodes, set![Rule::VarArray, Rule::FixedArray]),
        |n: NodeView| dimension_of(n),
    )
}

/// What an array suffix says: its last array token decides; without one
/// it is variable and unbounded.
pub open spec fn array_info(suffix: NodeView) -> Option<(bool, i32)> {
    match dimensions(suffix.inner) {
        Some(found) => Some(last_or(found, (false, UNBOUNDED))),
        None => None,
    }
}

/// What the array suffixes among the nodes say, in order.
pub open spec fn array_infos(nodes: Seq<NodeView>) -> Option<Seq<(bool, i32)>> {
    traverse(select(nodes, set![Rule::ArrayDef]), |n: NodeView| array_info(n))
}

/// The names in a type declaration: the first is the type, the second the
/// field.
pub open spec fn names_in(nodes: Seq<NodeView>) -> Seq<NodeView> {
    select(nodes, set![Rule::Types, Rule::Identifier])
}

/// The occurrence that a type declaration stands for. Without an array
/// suffix its `array_size` is 0.
pub open spec fn def_of(decl: NodeView) -> Option<DefView> {
    match array_infos(decl.inner) {
        Some(found) => {
            let info = last_or(found, (false, 0i32));
            Some(
                DefView {
                    name: text_at(names_in(decl.inner), 1),
                    type_id: text_at(names_in(decl.inner), 0),
                    fixed_array: info.0,
                    array_size: info.1,
                },
            )
        },
        None => None,
    }
}

/// The occurrences that the type declarations among the nodes stand for,
/// in order.
pub open spec fn defs(nodes: Seq<NodeView>) -> Option<Seq<DefView>> {
    traverse(select(nodes, set![Rule::TypeDecl]), |n: NodeView| def_of(n))
}

/// The typedef that a node stands for: its last type declaration, or the
/// empty occurrence where it has none.
pub open spec fn typedef_of(node: NodeView) -> Option<TypedefView> {
    match defs(node.inner) {
        Some(found) => Some(TypedefView { def: last_or(found, DefView::empty()) }),
        None => None,
    }
}

/// The names that the block headers among the nodes give, in order.
pub open spec fn headers(nodes: Seq<NodeView>) -> Option<Seq<Seq<char>>> {
    traverse(select(nodes, set![Rule::BracketStart]), |n: NodeView| header_name(n))
}

/// The struct that a node stands for: the name of its header, and its type
/// declarations in order.
pub open spec fn struct_of(node: NodeView) -> Option<StructView> {
    match (headers(node.inner), defs(node.inner)) {
        (Some(names), Some(props)) => Some(
            StructView { name: last_or(names, Seq::empty()), props },
        ),
        _ => None,
    }
}

/// The integers that the numbers among the nodes write, in order.
pub open spec fn numbers(nodes: Seq<NodeView>) -> Option<Seq<i32>> {
    traverse(select(nodes, set![Rule::Number]), |n: NodeView| integer_of(n.text))
}

/// The member that an enum entry stands for: its name and the integer
/// written for it.
pub open spec fn enum_value_of(node: NodeView) -> Option<EnumValueView> {
    match numbers(node.inner) {
        Some(found) => Some(
            EnumValueView {
                name: last_text(select(node.inner, set![Rule::Identifier])),
                index: last_or(found, 0i32),
            },
        ),
        None => None,
    }
}

/// The members that the enum entries among the nodes stand for, in order.
pub open spec fn enum_values(nodes: Seq<NodeView>) -> Option<Seq<EnumValueView>> {
    traverse(select(nodes, set![Rule::EnumDecl]), |n: NodeView| enum_value_of(n))
}

/// The enum that a node stands for: the name of its header, and its
/// members in order.
pub open spec fn enum_of(node: NodeView) -> Option<EnumView> {
    match (headers(node.inner), enum_values(node.inner)) {
        (Some(names), Some(values)) => Some(
            EnumView { name: last_or(names, Seq::empty()), values },
        ),
        _ => None,
    }
}

/// The arm that a case stands for. An arm that declares no type carries
/// `DefView::void()`.
pub open spec fn case_of(node: NodeView) -> Option<CaseView> {
    match defs(node.inner) {
        Some(found) => Some(
            CaseView {
                value: last_text(select(node.inner, set![Rule::Identifier])),
                ret_type: last_or(found, DefView::void()),
            },
        ),
        None => None,
    }
}

/// The arms that the cases among the nodes stand for, in order.
pub open spec fn cases(nodes: Seq<NodeView>) -> Option<Seq<CaseView>> {
    traverse(select(nodes, set![Rule::CaseStatement]), |n: NodeView| case_of(n))
}

/// The discriminant of a switch: the first identifier is its type, the
/// second its name.
pub open spec fn param_of(node: NodeView) -> (Seq<char>, Seq<char>) {
    let names = select(node.inner, set![Rule::Identifier]);
    (text_at(names, 0), text_at(names, 1))
}

/// The discriminant that the last parameter node gives, if there is one.
pub open spec fn last_param(nodes: Seq<NodeView>) -> (Seq<char>, Seq<char>) {
    let params = select(nodes, set![Rule::SingleParam]);
    if params.len() == 0 {
        (Seq::empty(), Seq::empty())
    } else {
        param_of(params.last())
    }
}

/// The switch that a node stands for: its discriminant and its arms in
/// order.
pub open spec fn switch_of(node: NodeView) -> Option<SwitchView> {
    match cases(node.inner) {
        Some(found) => Some(
            SwitchView {
                enum_name: last_param(node.inner).1,
                enum_type: last_param(node.inner).0,
                cases: found,
            },
        ),
        None => None,
    }
}

/// The switches among the nodes, in order.
pub open spec fn switches(nodes: Seq<NodeView>) -> Option<Seq<SwitchView>> {
    traverse(select(nodes, set![Rule::Switch]), |n: NodeView| switch_of(n))
}

/// The union that a node stands for: its name and its last switch, or the
/// empty switch where it has none.
pub open spec fn union_of(node: NodeView) -> Option<UnionView> {
    match switches(node.inner) {
        Some(found) => Some(
            UnionView {
                name: last_text(select(node.inner, set![Rule::Identifier])),
                switch: last_or(found, SwitchView::empty()),
            },
        ),
        None => None,
    }
}

/// The typedefs among the nodes, in order.
pub open spec fn typedefs(nodes: Seq<NodeView>) -> Option<Seq<TypedefView>> {
    traverse(select(nodes, set![Rule::Typedef]), |n: NodeView| typedef_of(n))
}

/// The structs among the nodes, in order.
pub open spec fn structs(nodes: Seq<NodeView>) -> Option<Seq<StructView>> {
    traverse(select(nodes, set![Rule::Struct]), |n: NodeView| struct_of(n))
}

/// The enums among the nodes, in order.
pub open spec fn enums(nodes: Seq<NodeView>) -> Option<Seq<EnumView>> {
    traverse(select(nodes, set![Rule::Enum]), |n: NodeView| enum_of(n))
}

/// The unions among the nodes, in order.
pub open spec fn unions(nodes: Seq<NodeView>) -> Option<Seq<UnionView>> {
    traverse(select(nodes, set![Rule::Union]), |n: NodeView| union_of(n))
}

/// The namespace that a node stands for. Each list holds the declarations
/// of its kind in the order of the source; how the kinds are interleaved
/// leaves no trace.
pub open spec fn namespace_of(node: NodeView) -> Option<NamespaceView> {
    match (
        headers(node.inner),
        typedefs(node.inner),
        structs(node.inner),
        enums(node.inner),
        unions(node.inner),
    ) {
        (Some(names), Some(typedefs), Some(structs), Some(enums), Some(unions)) => Some(
            NamespaceView { name: last_or(names, Seq::empty()), typedefs, unions, enums, structs },
        ),
        _ => None,
    }
}

/// The namespaces of a whole source, in order.
pub open spec fn namespaces_of(file: NodeView) -> Option<Seq<NamespaceView>> {
    traverse(select(file.inner, set![Rule::Namespace]), |n: NodeView| namespace_of(n))
}

/// The declaration tree of a source text.
pub open spec fn declarations_of(text: Seq<char>) -> Result<Seq<NamespaceView>, Error> {
    match parse_file(text) {
        None => Err(Error::Grammar),
        Some(file) => match namespaces_of(file) {
            None => Err(Error::Shape),
            Some(namespaces) => Ok(namespaces),
        },
    }
}

/// Whether `r` is what the builder owes for a node that stands for
/// `expected`: the value, or `Error::Shape` where there is none.
pub open spec fn yields<T: View>(r: Result<T, Error>, expected: Option<T::V>) -> bool {
    match r {
        Ok(v) => expected == Some(v@),
        Err(e) => e == Error::Shape && expected is None,
    }
}

/// Selecting among one node more.
pub proof fn lemma_select_next(nodes: Seq<NodeView>, i: int, rules: Set<Rule>)
    requires
        0 <= i < nodes.len(),
    ensures
        select(nodes.take(i + 1), rules) == if rules.contains(nodes[i].rule) {
            select(nodes.take(i), rules).push(nodes[i])
        } else {
            select(nodes.take(i), rules)
        },
{
    assert(nodes.take(i + 1).drop_last() == nodes.take(i));
    assert(nodes.take(i + 1).last() == nodes[i]);
}

/// Building from one node more.
pub proof fn lemma_next<T>(
    nodes: Seq<NodeView>,
    i: int,
    rules: Set<Rule>,
    f: spec_fn(NodeView) -> Option<T>,
)
    requires
        0 <= i < nodes.len(),
    ensures
        traverse(select(nodes.take(i + 1), rules), f) == if rules.contains(nodes[i].rule) {
            match (traverse(select(nodes.take(i), rules), f), f(nodes[i])) {
                (Some(before), Some(item)) => Some(before.push(item)),
                _ => None,
            }
        } else {
            traverse(select(nodes.take(i), rules), f)
        },
{
    lemma_select_next(nodes, i, rules);
    if rules.contains(nodes[i].rule) {
        let before = select(nodes.take(i), rules);
        assert(before.push(nodes[i]).drop_last() == before);
        assert(before.push(nodes[i]).last() == nodes[i]);
    }
}

/// The name of a block: the first identifier of its header.
pub fn name_from_bracket_start(bs: &Node) -> (r: Result<String, Error>)
    ensures
        match r {
            Ok(name) => header_name(bs@) == Some(name@),
            Err(e) => e == Error::Shape && header_name(bs@) is None,
        },
{
    let ghost inner = bs@.inner;
    let ghost rules = set![Rule::Identifier];
    let mut i: usize = 0;
    while i < bs.len()
        invariant
            i <= bs@.inner.len(),
            inner == bs@.inner,
            rules == set![Rule::Identifier],
            select(inner.take(i as int), rules).len() == 0,
        decreases bs@.inner.len() - i,
    {
        let node = bs.child(i);
        proof {
            lemma_select_next(inner, i as int, rules);
        }
        match node.rule {
            Rule::Identifier => {
                proof {
                    crate::tree::lemma_select_add(
                        inner.take(i + 1),
                        inner.skip(i + 1),
                        rules,
                    );
                    assert(inner.take(i + 1) + inner.skip(i + 1) == inner);
                    assert(select(inner, rules)[0] == node@);
                }
                return Ok(node.text.clone());
            },
            _ => {},
        }
        i = i + 1;
    }
    proof {
        assert(inner.take(i as int) == inner);
    }
    Err(Error::Shape)
}

/// Reads what stands between the brackets of an array token: nothing, or
/// a bound.
fn read_bound(text: &str, open: char, close: char) -> (r: Option<Option<i32>>)
    ensures
        match bracketed(text@, open, close) {
            None => r is None,
            Some(digits) => if digits.len() == 0 {
                r == Some(None::<i32>)
            } else {
                match bound_of(digits) {
                    Some(v) => r == Some(Some(v)),
                    None => r is None,
                }
            },
        },
{
    let n = text.unicode_len();
    if n < 2 {
        return None;
    }
    if text.get_char(0) != open || text.get_char(n - 1) != close {
        return None;
    }
    if n == 2 {
        return Some(None);
    }
    match parse_decimal(text, 1, n - 1, 2147483646) {
        Some(v) => Some(Some(v as i32)),
        None => None,
    }
}

fn read_dimension(token: &Node) -> (r: Option<(bool, i32)>)
    requires
        token.rule == Rule::VarArray || token.rule == Rule::FixedArray,
    ensures
        r == dimension_of(token@),
{
    proof {
        assert(token@.rule == token.rule && token@.text == token.text@);
    }
    match token.rule {
        Rule::VarArray => match read_bound(token.text.as_str(), '<', '>') {
            Some(None) => Some((false, UNBOUNDED)),
            Some(Some(v)) => Some((false, v)),
            None => None,
        },
        _ => match read_bound(token.text.as_str(), '[', ']') {
            Some(Some(v)) => Some((true, v)),
            _ => None,
        },
    }
}

/// Whether an array suffix is fixed, and its bound.
pub fn get_array_info(d: &Node) -> (r: Result<(bool, i32), Error>)
    ensures
        match r {
            Ok(info) => array_info(d@) == Some(info),
            Err(e) => e == Error::Shape && array_info(d@) is None,
        },
{
    let ghost inner = d@.inner;
    let ghost rules = set![Rule::VarArray, Rule::FixedArray];
    let mut info: (bool, i32) = (false, UNBOUNDED);
    let mut i: usize = 0;
    while i < d.len()
        invariant
            i <= d@.inner.len(),
            inner == d@.inner,
            rules == set![Rule::VarArray, Rule::FixedArray],
            dimensions(inner.take(i as int)) is Some,
            last_or(dimensions(inner.take(i as int))->0, (false, UNBOUNDED)) == info,
        decreases d@.inner.len() - i,
    {
        let node = d.child(i);
        proof {
            lemma_next(inner, i as int, rules, |n: NodeView| dimension_of(n));
        }
        match node.rule {
            Rule::VarArray | Rule::FixedArray => {
                match read_dimension(node) {
                    Some(found) => {
                        info = found;
                    },
                    None => {
                        proof {
                            lemma_selected_fails(
                                inner,
                                rules,
                                |n: NodeView| dimension_of(n),
                                i as int,
                            );
                        }
                        return Err(Error::Shape);
                    },
                }
            },
            _ => {},
        }
        i = i + 1;
    }
    proof {
        assert(inner.take(i as int) == inner);
    }
    Ok(info)
}

/// The occurrence that a type declaration stands for.
pub fn build_def(d: &Node) -> (r: Result<Def, Error>)
    ensures
        yields(r, def_of(d@)),
{
    let ghost inner = d@.inner;
    let ghost names = set![Rule::Types, Rule::Identifier];
    let ghost suffixes = set![Rule::ArrayDef];
    let mut name = String::new();
    let mut type_id = String::new();
    let mut info: (bool, i32) = (false, 0);
    let mut id_count: usize = 0;
    let mut i: usize = 0;
    while i < d.len()
        invariant
            i <= d@.inner.len(),
            inner == d@.inner,
            names == set![Rule::Types, Rule::Identifier],
            suffixes == set![Rule::ArrayDef],
            id_count == select(inner.take(i as int), names).len(),
            id_count <= i,
            type_id@ == text_at(select(inner.take(i as int), names), 0),
            name@ == text_at(select(inner.take(i as int), names), 1),
            array_infos(inner.take(i as int)) is Some,
            last_or(array_infos(inner.take(i as int))->0, (false, 0i32)) == info,
        decreases d@.inner.len() - i,
    {
        let node = d.child(i);
        proof {
            lemma_select_next(inner, i as int, names);
            lemma_next(inner, i as int, suffixes, |n: NodeView| array_info(n));
        }
        match node.rule {
            Rule::Types | Rule::Identifier => {
                if id_count == 0 {
                    type_id = node.text.clone();
                } else if id_count == 1 {
                    name = node.text.clone();
                }
                id_count = id_count + 1;
            },
            Rule::ArrayDef => {
                match get_array_info(node) {
                    Ok(found) => {
                        info = found;
                    },
                    Err(_) => {
                        proof {
                            lemma_selected_fails(
                                inner,
                                suffixes,
                                |n: NodeView| array_info(n),
                                i as int,
                            );
                        }
                        return Err(Error::Shape);
                    },
                }
            },
            _ => {},
        }
        i = i + 1;
    }
    proof {
        assert(inner.take(i as int) == inner);
    }
    Ok(Def { name, type_id, fixed_array: info.0, array_size: info.1 })
}

/// The typedef that a node stands for.
pub fn build_typedef(td: &Node) -> (r: Result<Typedef, Error>)
    ensures
        yields(r, typedef_of(td@)),
{
    let ghost inner = td@.inner;
    let ghost rules = set![Rule::TypeDecl];
    let mut def = Def::default();
    let mut i: usize = 0;
    while i < td.len()
        invariant
            i <= td@.inner.len(),
            inner == td@.inner,
            rules == set![Rule::TypeDecl],
            defs(inner.take(i as int)) is Some,
            last_or(defs(inner.take(i as int))->0, DefView::empty()) == def@,
        decreases td@.inner.len() - i,
    {
        let node = td.child(i);
        proof {
            lemma_next(inner, i as int, rules, |n: NodeView| def_of(n));
        }
        match node.rule {
            Rule::TypeDecl => {
                match build_def(node) {
                    Ok(found) => {
                        def = found;
                    },
                    Err(_) => {
                        proof {
                            lemma_selected_fails(inner, rules, |n: NodeView| def_of(n), i as int);
                        }
                        return Err(Error::Shape);
                    },
                }
            },
            _ => {},
        }
        i = i + 1;
    }
    proof {
        assert(inner.take(i as int) == inner);
    }
    Ok(Typedef { def })
}

/// The struct that a node stands for.
pub fn build_struct(st: &Node) -> (r: Result<Struct, Error>)
    ensures
        yields(r, struct_of(st@)),
{
    let ghost inner = st@.inner;
    let ghost heads = set![Rule::BracketStart];
    let ghost decls = set![Rule::TypeDecl];
    let mut name = String::new();
    let mut props: Vec<Def> = Vec::new();
    let mut i: usize = 0;
    proof {
        assert(views(props@) == Seq::<DefView>::empty());
    }
    while i < st.len()
        invariant
            i <= st@.inner.len(),
            inner == st@.inner,
            heads == set![Rule::BracketStart],
            decls == set![Rule::TypeDecl],
            headers(inner.take(i as int)) is Some,
            last_or(headers(inner.take(i as int))->0, Seq::empty()) == name@,
            defs(inner.take(i as int)) == Some(views(props@)),
        decreases st@.inner.len() - i,
    {
        let node = st.child(i);
        proof {
            lemma_next(inner, i as int, heads, |n: NodeView| header_name(n));
            lemma_next(inner, i as int, decls, |n: NodeView| def_of(n));
        }
        match node.rule {
            Rule::BracketStart => {
                match name_from_bracket_start(node) {
                    Ok(found) => {
                        name = found;
                    },
                    Err(_) => {
                        proof {
                            lemma_selected_fails(
                                inner,
                                heads,
                                |n: NodeView| header_name(n),
                                i as int,
                            );
                        }
                        return Err(Error::Shape);
                    },
                }
            },
            Rule::TypeDecl => {
                match build_def(node) {
                    Ok(found) => {
                        let ghost before = views(props@);
                        props.push(found);
                        assert(views(props@) == before.push(found@));
                    },
                    Err(_) => {
                        proof {
                            lemma_selected_fails(inner, decls, |n: NodeView| def_of(n), i as int);
                        }
                        return Err(Error::Shape);
                    },
                }
            },
            _ => {},
        }
        i = i + 1;
    }
    proof {
        assert(inner.take(i as int) == inner);
    }
    Ok(Struct { name, props })
}

/// The member that an enum entry stands for.
pub fn build_enum_val(en: &Node) -> (r: Result<EnumValue, Error>)
    ensures
        yields(r, enum_value_of(en@)),
{
    let ghost inner = en@.inner;
    let ghost ids = set![Rule::Identifier];
    let ghost nums = set![Rule::Number];
    let mut name = String::new();
    let mut index: i32 = 0;
    let mut i: usize = 0;
    while i < en.len()
        invariant
            i <= en@.inner.len(),
            inner == en@.inner,
            ids == set![Rule::Identifier],
            nums == set![Rule::Number],
            name@ == last_text(select(inner.take(i as int), ids)),
            numbers(inner.take(i as int)) is Some,
            last_or(numbers(inner.take(i as int))->0, 0i32) == index,
        decreases en@.inner.len() - i,
    {
        let node = en.child(i);
        proof {
            lemma_select_next(inner, i as int, ids);
            lemma_next(inner, i as int, nums, |n: NodeView| integer_of(n.text));
        }
        match node.rule {
            Rule::Identifier => {
                name = node.text.clone();
            },
            Rule::Number => {
                match parse_integer(node.text.as_str()) {
                    Some(found) => {
                        index = found;
                    },
                    None => {
                        proof {
                            lemma_selected_fails(
                                inner,
                                nums,
                                |n: NodeView| integer_of(n.text),
                                i as int,
                            );
                        }
                        return Err(Error::Shape);
                    },
                }
            },
            _ => {},
        }
        i = i + 1;
    }
    proof {
        assert(inner.take(i as int) == inner);
    }
    Ok(EnumValue { name, index })
}

/// The enum that a node stands for.
pub fn build_enum(en: &Node) -> (r: Result<Enum, Error>)
    ensures
        yields(r, enum_of(en@)),
{
    let ghost inner = en@.inner;
    let ghost heads = set![Rule::BracketStart];
    let ghost decls = set![Rule::EnumDecl];
    let mut name = String::new();
    let mut values: Vec<EnumValue> = Vec::new();
    let mut i: usize = 0;
    proof {
        assert(views(values@) == Seq::<EnumValueView>::empty());
    }
    while i < en.len()
        invariant
            i <= en@.inner.len(),
            inner == en@.inner,
            heads == set![Rule::BracketStart],
            decls == set![Rule::EnumDecl],
            headers(inner.take(i as int)) is Some,
            last_or(headers(inner.take(i as int))->0, Seq::empty()) == name@,
            enum_values(inner.take(i as int)) == Some(views(values@)),
        decreases en@.inner.len() - i,
    {
        let node = en.child(i);
        proof {
            lemma_next(inner, i as int, heads, |n: NodeView| header_name(n));
            lemma_next(inner, i as int, decls, |n: NodeView| enum_value_of(n));
        }
        match node.rule {
            Rule::BracketStart => {
                match name_from_bracket_start(node) {
                    Ok(found) => {
                        name = found;
                    },
                    Err(_) => {
                        proof {
                            lemma_selected_fails(
                                inner,
                                heads,
                                |n: NodeView| header_name(n),
                                i as int,
                            );
                        }
                        return Err(Error::Shape);
                    },
                }
            },
            Rule::EnumDecl => {
                match build_enum_val(node) {
                    Ok(found) => {
                        let ghost before = views(values@);
                        values.push(found);
                        assert(views(values@) == before.push(found@));
                    },
                    Err(_) => {
                        proof {
                            lemma_selected_fails(
                                inner,
                                decls,
                                |n: NodeView| enum_value_of(n),
                                i as int,
                            );
                        }
                        return Err(Error::Shape);
                    },
                }
            },
            _ => {},
        }
        i = i + 1;
    }
    proof {
        assert(inner.take(i as int) == inner);
    }
    Ok(Enum { name, values })
}

/// The payload of an arm that carries none.
pub fn void_def() -> (r: Def)
    ensures
        r@ == DefView::void(),
{
    Def {
        name: "void".to_owned(),
        type_id: String::new(),
        fixed_array: false,
        array_size: 0,
    }
}

/// The arm that a case stands for.
pub fn build_case(ca: &Node) -> (r: Result<Case, Error>)
    ensures
        yields(r, case_of(ca@)),
{
    let ghost inner = ca@.inner;
    let ghost ids = set![Rule::Identifier];
    let ghost decls = set![Rule::TypeDecl];
    let mut value = String::new();
    let mut def = void_def();
    let mut i: usize = 0;
    while i < ca.len()
        invariant
            i <= ca@.inner.len(),
            inner == ca@.inner,
            ids == set![Rule::Identifier],
            decls == set![Rule::TypeDecl],
            value@ == last_text(select(inner.take(i as int), ids)),
            defs(inner.take(i as int)) is Some,
            last_or(defs(inner.take(i as int))->0, DefView::void()) == def@,
        decreases ca@.inner.len() - i,
    {
        let node = ca.child(i);
        proof {
            lemma_select_next(inner, i as int, ids);
            lemma_next(inner, i as int, decls, |n: NodeView| def_of(n));
        }
        match node.rule {
            Rule::Identifier => {
                value = node.text.clone();
            },
            Rule::TypeDecl => {
                match build_def(node) {
                    Ok(found) => {
                        def = found;
                    },
                    Err(_) => {
                        proof {
                            lemma_selected_fails(inner, decls, |n: NodeView| def_of(n), i as int);
                        }
                        return Err(Error::Shape);
                    },
                }
            },
            _ => {},
        }
        i = i + 1;
    }
    proof {
        assert(inner.take(i as int) == inner);
    }
    Ok(Case { value, ret_type: def })
}

/// The discriminant of a switch: its type, then its name. They are taken
/// by position: the first identifier and the second.
pub fn type_id_from_single_param(pa: &Node) -> (r: Result<(String, String), Error>)
    ensures
        r is Ok,
        (r->Ok_0.0@, r->Ok_0.1@) == param_of(pa@),
{
    let ghost inner = pa@.inner;
    let ghost ids = set![Rule::Identifier];
    let mut sw_type = String::new();
    let mut id = String::new();
    let mut id_count: usize = 0;
    let mut i: usize = 0;
    while i < pa.len()
        invariant
            i <= pa@.inner.len(),
            inner == pa@.inner,
            ids == set![Rule::Identifier],
            id_count == select(inner.take(i as int), ids).len(),
            id_count <= i,
            sw_type@ == text_at(select(inner.take(i as int), ids), 0),
            id@ == text_at(select(inner.take(i as int), ids), 1),
        decreases pa@.inner.len() - i,
    {
        let node = pa.child(i);
        proof {
            lemma_select_next(inner, i as int, ids);
        }
        match node.rule {
            Rule::Identifier => {
                if id_count == 0 {
                    sw_type = node.text.clone();
                } else if id_count == 1 {
                    id = node.text.clone();
                }
                id_count = id_count + 1;
            },
            _ => {},
        }
        i = i + 1;
    }
    proof {
        assert(inner.take(i as int) == inner);
    }
    Ok((sw_type, id))
}

/// The switch that a node stands for.
pub fn build_switch(sw: &Node) -> (r: Result<Switch, Error>)
    ensures
        yields(r, switch_of(sw@)),
{
    let ghost inner = sw@.inner;
    let ghost params = set![Rule::SingleParam];
    let ghost arms = set![Rule::CaseStatement];
    let mut enum_name = String::new();
    let mut enum_type = String::new();
    let mut found_cases: Vec<Case> = Vec::new();
    let mut i: usize = 0;
    proof {
        assert(views(found_cases@) == Seq::<CaseView>::empty());
    }
    while i < sw.len()
        invariant
            i <= sw@.inner.len(),
            inner == sw@.inner,
            params == set![Rule::SingleParam],
            arms == set![Rule::CaseStatement],
            (enum_type@, enum_name@) == last_param(inner.take(i as int)),
            cases(inner.take(i as int)) == Some(views(found_cases@)),
        decreases sw@.inner.len() - i,
    {
        let node = sw.child(i);
        proof {
            lemma_select_next(inner, i as int, params);
            lemma_next(inner, i as int, arms, |n: NodeView| case_of(n));
        }
        match node.rule {
            Rule::SingleParam => {
                let pair = type_id_from_single_param(node).unwrap();
                enum_type = pair.0;
                enum_name = pair.1;
            },
            Rule::CaseStatement => {
                match build_case(node) {
                    Ok(found) => {
                        let ghost before = views(found_cases@);
                        found_cases.push(found);
                        assert(views(found_cases@) == before.push(found@));
                    },
                    Err(_) => {
                        proof {
                            lemma_selected_fails(inner, arms, |n: NodeView| case_of(n), i as int);
                        }
                        return Err(Error::Shape);
                    },
                }
            },
            _ => {},
        }
        i = i + 1;
    }
    proof {
        assert(inner.take(i as int) == inner);
    }
    Ok(Switch { enum_name, enum_type, cases: found_cases })
}

/// The union that a node stands for.
pub fn build_union(un: &Node) -> (r: Result<Union, Error>)
    ensures
        yields(r, union_of(un@)),
{
    let ghost inner = un@.inner;
    let ghost ids = set![Rule::Identifier];
    let ghost bodies = set![Rule::Switch];
    let mut name = String::new();
    let mut switch = Switch::default();
    let mut i: usize = 0;
    while i < un.len()
        invariant
            i <= un@.inner.len(),
            inner == un@.inner,
            ids == set![Rule::Identifier],
            bodies == set![Rule::Switch],
            name@ == last_text(select(inner.take(i as int), ids)),
            switches(inner.take(i as int)) is Some,
            last_or(switches(inner.take(i as int))->0, SwitchView::empty()) == switch@,
        decreases un@.inner.len() - i,
    {
        let node = un.child(i);
        proof {
            lemma_select_next(inner, i as int, ids);
            lemma_next(inner, i as int, bodies, |n: NodeView| switch_of(n));
        }
        match node.rule {
            Rule::Identifier => {
                name = node.text.clone();
            },
            Rule::Switch => {
                match build_switch(node) {
                    Ok(found) => {
                        switch = found;
                    },
                    Err(_) => {
                        proof {
                            lemma_selected_fails(
                                inner,
                                bodies,
                                |n: NodeView| switch_of(n),
                                i as int,
                            );
                        }
                        return Err(Error::Shape);
                    },
                }
            },
            _ => {},
        }
        i = i + 1;
    }
    proof {
        assert(inner.take(i as int) == inner);
    }
    Ok(Union { name, switch })
}

/// The namespace that a node stands for.
pub fn build_namespace(ns: &Node) -> (r: Result<Namespace, Error>)
    ensures
        yields(r, namespace_of(ns@)),
{
    let ghost inner = ns@.inner;
    let ghost heads = set![Rule::BracketStart];
    let ghost r_typedefs = set![Rule::Typedef];
    let ghost r_structs = set![Rule::Struct];
    let ghost r_enums = set![Rule::Enum];
    let ghost r_unions = set![Rule::Union];
    let mut name = String::new();
    let mut found_typedefs: Vec<Typedef> = Vec::new();
    let mut found_structs: Vec<Struct> = Vec::new();
    let mut found_enums: Vec<Enum> = Vec::new();
    let mut found_unions: Vec<Union> = Vec::new();
    let mut i: usize = 0;
    proof {
        assert(views(found_typedefs@) == Seq::<TypedefView>::empty());
        assert(views(found_structs@) == Seq::<StructView>::empty());
        assert(views(found_enums@) == Seq::<EnumView>::empty());
        assert(views(found_unions@) == Seq::<UnionView>::empty());
    }
    while i < ns.len()
        invariant
            i <= ns@.inner.len(),
            inner == ns@.inner,
            heads == set![Rule::BracketStart],
            r_typedefs == set![Rule::Typedef],
            r_structs == set![Rule::Struct],
            r_enums == set![Rule::Enum],
            r_unions == set![Rule::Union],
            headers(inner.take(i as int)) is Some,
            last_or(headers(inner.take(i as int))->0, Seq::empty()) == name@,
            typedefs(inner.take(i as int)) == Some(views(found_typedefs@)),
            structs(inner.take(i as int)) == Some(views(found_structs@)),
            enums(inner.take(i as int)) == Some(views(found_enums@)),
            unions(inner.take(i as int)) == Some(views(found_unions@)),
        decreases ns@.inner.len() - i,
    {
        let node = ns.child(i);
        proof {
            lemma_next(inner, i as int, heads, |n: NodeView| header_name(n));
            lemma_next(inner, i as int, r_typedefs, |n: NodeView| typedef_of(n));
            lemma_next(inner, i as int, r_structs, |n: NodeView| struct_of(n));
            lemma_next(inner, i as int, r_enums, |n: NodeView| enum_of(n));
            lemma_next(inner, i as int, r_unions, |n: NodeView| union_of(n));
        }
        match node.rule {
            Rule::BracketStart => {
                match name_from_bracket_start(node) {
                    Ok(found) => {
                        name = found;
                    },
                    Err(_) => {
                        proof {
                            lemma_selected_fails(
                                inner,
                                heads,
                                |n: NodeView| header_name(n),
                                i as int,
                            );
                        }
                        return Err(Error::Shape);
                    },
                }
            },
            Rule::Typedef => {
                match build_typedef(node) {
                    Ok(found) => {
                        let ghost before = views(found_typedefs@);
                        found_typedefs.push(found);
                        assert(views(found_typedefs@) == before.push(found@));
                    },
                    Err(_) => {
                        proof {
                            lemma_selected_fails(
                                inner,
                                r_typedefs,
                                |n: NodeView| typedef_of(n),
                                i as int,
                            );
                        }
                        return Err(Error::Shape);
                    },
                }
            },
            Rule::Struct => {
                match build_struct(node) {
                    Ok(found) => {
                        let ghost before = views(found_structs@);
                        found_structs.push(found);
                        assert(views(found_structs@) == before.push(found@));
                    },
                    Err(_) => {
                        proof {
                            lemma_selected_fails(
                                inner,
                                r_structs,
                                |n: NodeView| struct_of(n),
                                i as int,
                            );
                        }
                        return Err(Error::Shape);
                    },
                }
            },
            Rule::Enum => {
                match build_enum(node) {
                    Ok(found) => {
                        let ghost before = views(found_enums@);
                        found_enums.push(found);
                        assert(views(found_enums@) == before.push(found@));
                    },
                    Err(_) => {
                        proof {
                            lemma_selected_fails(
                                inner,
                                r_enums,
                                |n: NodeView| enum_of(n),
                                i as int,
                            );
                        }
                        return Err(Error::Shape);
                    },
                }
            },
            Rule::Union => {
                match build_union(node) {
                    Ok(found) => {
                        let ghost before = views(found_unions@);
                        found_unions.push(found);
                        assert(views(found_unions@) == before.push(found@));
                    },
                    Err(_) => {
                        proof {
                            lemma_selected_fails(
                                inner,
                                r_unions,
                                |n: NodeView| union_of(n),
                                i as int,
                            );
                        }
                        return Err(Error::Shape);
                    },
                }
            },
            _ => {},
        }
        i = i + 1;
    }
    proof {
        assert(inner.take(i as int) == inner);
    }
    Ok(
        Namespace {
            name,
            typedefs: found_typedefs,
            unions: found_unions,
            enums: found_enums,
            structs: found_structs,
        },
    )
}

/// The namespaces of a parsed source, in order.
pub fn build_file(file: &Node) -> (r: Result<Vec<Namespace>, Error>)
    ensures
        match r {
            Ok(namespaces) => namespaces_of(file@) == Some(views(namespaces@)),
            Err(e) => e == Error::Shape && namespaces_of(file@) is None,
        },
{
    let ghost inner = file@.inner;
    let ghost rules = set![Rule::Namespace];
    let mut namespaces: Vec<Namespace> = Vec::new();
    let mut i: usize = 0;
    proof {
        assert(views(namespaces@) == Seq::<NamespaceView>::empty());
    }
    while i < file.len()
        invariant
            i <= file@.inner.len(),
            inner == file@.inner,
            rules == set![Rule::Namespace],
            traverse(select(inner.take(i as int), rules), |n: NodeView| namespace_of(n)) == Some(
                views(namespaces@),
            ),
        decreases file@.inner.len() - i,
    {
        let node = file.child(i);
        proof {
            lemma_next(inner, i as int, rules, |n: NodeView| namespace_of(n));
        }
        match node.rule {
            Rule::Namespace => {
                match build_namespace(node) {
                    Ok(found) => {
                        let ghost before = views(namespaces@);
                        namespaces.push(found);
                        assert(views(namespaces@) == before.push(found@));
                    },
                    Err(_) => {
                        proof {
                            lemma_selected_fails(
                                inner,
                                rules,
                                |n: NodeView| namespace_of(n),
                                i as int,
                            );
                        }
                        return Err(Error::Shape);
                    },
                }
            },
            _ => {},
        }
        i = i + 1;
    }
    proof {
        assert(inner.take(i as int) == inner);
    }
    Ok(namespaces)
}

/// Parses a source text and builds its declaration tree.
///
/// Fails with `Error::Grammar` where the text does not conform to the
/// grammar, and with `Error::Shape` where it does and its tree cannot be
/// built. A text that conforms builds unless a bound or the number of an
/// enum member does not fit its place.
pub fn build_namespaces(raw_idl: String) -> (r: Result<Vec<Namespace>, Error>)
    ensures
        match r {
            Ok(namespaces) => declarations_of(raw_idl@) == Ok::<Seq<NamespaceView>, Error>(
                views(namespaces@),
            ),
            Err(e) => declarations_of(raw_idl@) == Err::<Seq<NamespaceView>, Error>(e),
        },
{
    match XDRParser::parse(raw_idl.as_str()) {
        Err(_) => Err(Error::Grammar),
        Ok(file) => build_file(&file),
    }
}

} // verus!
