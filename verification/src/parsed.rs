//! What the builder makes of a tree that the grammar gave: it builds
//! wherever the numbers in it fit, so a source that conforms to the
//! grammar never fails for its shape.

use crate::builder::{
    array_info, case_of, declarations_of, def_of, dimension_of, enum_of, enum_value_of,
    header_name, namespace_of, namespaces_of, struct_of, switch_of, typedef_of, union_of,
};
use crate::grammar::{
    array_at, case_at, cases_at, declaration_at, declarations_at, enum_at, fields_at, header_at,
    lemma_case_advances, lemma_declaration_advances, lemma_header_advances,
    lemma_member_advances, lemma_name_advances, lemma_namespace_advances,
    lemma_skip_space_bounds, lemma_type_decl_advances, lemma_word_end_bounds, member_at,
    members_at, name_at, namespace_at, namespaces_at, param_at, parse_file, skip_space,
    struct_at, switch_at, symbol_at, type_at, type_decl_at, typedef_at, union_at, word_end,
};
use crate::text::integer_of;
use crate::tree::{select, traverse, NodeView, Rule};
use vstd::prelude::*;

verus! {

/// Whether every number in a tree fits its place: each array token gives
/// a dimension, and each integer literal an `i32`.
pub open spec fn numbers_fit(node: NodeView) -> bool
    decreases node,
{
    &&& (node.rule == Rule::VarArray || node.rule == Rule::FixedArray) ==> dimension_of(node)
        is Some
    &&& node.rule == Rule::Number ==> integer_of(node.text) is Some
    &&& forall|i: int| 0 <= i < node.inner.len() ==> numbers_fit(#[trigger] node.inner[i])
}

/// Where `f` makes something of every node that has one of the rules, it
/// makes something of the selected.
pub proof fn lemma_selected_build<T>(
    nodes: Seq<NodeView>,
    rules: Set<Rule>,
    f: spec_fn(NodeView) -> Option<T>,
)
    requires
        forall|k: int|
            0 <= k < nodes.len() && rules.contains((#[trigger] nodes[k]).rule) ==> f(nodes[k])
                is Some,
    ensures
        traverse(select(nodes, rules), f) is Some,
    decreases nodes.len(),
{
    if nodes.len() > 0 {
        assert forall|k: int|
            0 <= k < nodes.drop_last().len() && rules.contains(
                (#[trigger] nodes.drop_last()[k]).rule,
            ) implies f(nodes.drop_last()[k]) is Some by {
            assert(nodes.drop_last()[k] == nodes[k]);
        }
        lemma_selected_build(nodes.drop_last(), rules, f);
        assert(nodes.last() == nodes[nodes.len() - 1]);
        if rules.contains(nodes.last().rule) {
            let before = select(nodes.drop_last(), rules);
            assert(before.push(nodes.last()).drop_last() == before);
        }
    }
}

/// Selecting from a single node.
pub proof fn lemma_select_one(node: NodeView, rules: Set<Rule>)
    ensures
        select(seq![node], rules) == if rules.contains(node.rule) {
            seq![node]
        } else {
            Seq::<NodeView>::empty()
        },
{
    let one = seq![node];
    let none = Seq::<NodeView>::empty();
    assert(one.drop_last() == none);
    assert(one.last() == node);
    assert(select(none, rules) == none);
    assert(none.push(node) == one);
}

/// A header that the grammar gave has a name.
pub proof fn lemma_header_builds(s: Seq<char>, i: int, keyword: Seq<char>)
    ensures
        header_at(s, i, keyword) matches Some((header, _)) ==> header.rule == Rule::BracketStart
            && header_name(header) is Some && numbers_fit(header),
{
    if let Some((header, _)) = header_at(s, i, keyword) {
        let name = header.inner[0];
        assert(header.inner == seq![name]);
        lemma_select_one(name, set![Rule::Identifier]);
        assert(numbers_fit(name));
    }
}

/// An array suffix that the grammar gave says something where its number
/// fits.
pub proof fn lemma_array_builds(s: Seq<char>, i: int)
    ensures
        array_at(s, i) matches Some((suffix, _)) ==> suffix.rule == Rule::ArrayDef && (numbers_fit(
            suffix,
        ) ==> array_info(suffix) is Some),
{
    if let Some((suffix, _)) = array_at(s, i) {
        if numbers_fit(suffix) {
            let tok = suffix.inner[0];
            assert(numbers_fit(tok));
            lemma_selected_build(
                suffix.inner,
                set![Rule::VarArray, Rule::FixedArray],
                |n: NodeView| dimension_of(n),
            );
        }
    }
}

/// A type declaration that the grammar gave stands for an occurrence
/// where its number fits.
pub proof fn lemma_type_decl_builds(s: Seq<char>, i: int)
    ensures
        type_decl_at(s, i) matches Some((decl, _)) ==> decl.rule == Rule::TypeDecl && (numbers_fit(
            decl,
        ) ==> def_of(decl) is Some),
{
    if let Some((decl, _)) = type_decl_at(s, i) {
        if numbers_fit(decl) {
            let e1 = type_at(s, i).unwrap().1;
            let j = skip_space(s, e1);
            lemma_array_builds(s, j);
            if array_at(s, j) is Some {
                lemma_array_builds(s, j);
            } else if name_at(s, j) is Some {
                lemma_array_builds(s, skip_space(s, name_at(s, j).unwrap().1));
            }
            assert forall|k: int|
                0 <= k < decl.inner.len() && set![Rule::ArrayDef].contains(
                    (#[trigger] decl.inner[k]).rule,
                ) implies array_info(decl.inner[k]) is Some by {
                assert(numbers_fit(decl.inner[k]));
            }
            lemma_selected_build(decl.inner, set![Rule::ArrayDef], |n: NodeView| array_info(n));
        }
    }
}

/// A typedef that the grammar gave builds where its number fits.
pub proof fn lemma_typedef_builds(s: Seq<char>, i: int)
    ensures
        typedef_at(s, i) matches Some((node, _)) ==> node.rule == Rule::Typedef && (numbers_fit(
            node,
        ) ==> typedef_of(node) is Some),
{
    if let Some((node, _)) = typedef_at(s, i) {
        if numbers_fit(node) {
            lemma_type_decl_builds(s, skip_space(s, word_end(s, i)));
            assert(numbers_fit(node.inner[0]));
            lemma_selected_build(node.inner, set![Rule::TypeDecl], |n: NodeView| def_of(n));
        }
    }
}

/// Whether each node of a list has the rule and, where its numbers fit,
/// is something to `f`.
pub open spec fn all_build<T>(
    nodes: Seq<NodeView>,
    rule: Rule,
    f: spec_fn(NodeView) -> Option<T>,
) -> bool {
    forall|k: int|
        0 <= k < nodes.len() ==> (#[trigger] nodes[k]).rule == rule && (numbers_fit(nodes[k])
            ==> f(nodes[k]) is Some)
}

/// One node before a list of which all build.
proof fn lemma_all_build_first<T>(
    first: NodeView,
    rest: Seq<NodeView>,
    rule: Rule,
    f: spec_fn(NodeView) -> Option<T>,
)
    requires
        first.rule == rule,
        numbers_fit(first) ==> f(first) is Some,
        all_build(rest, rule, f),
    ensures
        all_build(seq![first] + rest, rule, f),
{
    let all = seq![first] + rest;
    assert forall|k: int| 0 <= k < all.len() implies (#[trigger] all[k]).rule == rule && (
    numbers_fit(all[k]) ==> f(all[k]) is Some) by {
        if k > 0 {
            assert(all[k] == rest[k - 1]);
        }
    }
}

/// The fields that the grammar gave are type declarations that build.
pub proof fn lemma_fields_build(s: Seq<char>, i: int)
    requires
        0 <= i <= s.len(),
    ensures
        fields_at(s, i) matches Some((fields, _)) ==> all_build(
            fields,
            Rule::TypeDecl,
            |n: NodeView| def_of(n),
        ),
    decreases s.len() - i,
{
    if !symbol_at(s, i, '}') {
        if let Some((decl, e)) = type_decl_at(s, i) {
            let k = skip_space(s, e);
            if symbol_at(s, k, ';') {
                let next = skip_space(s, k + 1);
                lemma_type_decl_builds(s, i);
                lemma_type_decl_advances(s, i);
                lemma_skip_space_bounds(s, e);
                lemma_skip_space_bounds(s, k + 1);
                lemma_fields_build(s, next);
                if let Some((rest, _)) = fields_at(s, next) {
                    lemma_all_build_first(decl, rest, Rule::TypeDecl, |n: NodeView| def_of(n));
                }
            }
        }
    }
}

/// A block of a header and a list of which all build: the header is the
/// only node with its rule, the others all have theirs.
proof fn lemma_block<T>(
    header: NodeView,
    items: Seq<NodeView>,
    rule: Rule,
    f: spec_fn(NodeView) -> Option<T>,
)
    requires
        header.rule == Rule::BracketStart,
        header_name(header) is Some,
        rule != Rule::BracketStart,
        all_build(items, rule, f),
        forall|k: int| 0 <= k < items.len() ==> numbers_fit(#[trigger] items[k]),
    ensures
        traverse(
            select(seq![header] + items, set![Rule::BracketStart]),
            |n: NodeView| header_name(n),
        ) is Some,
        traverse(select(seq![header] + items, set![rule]), f) is Some,
{
    let inner = seq![header] + items;
    assert forall|k: int| 0 <= k < inner.len() implies ((#[trigger] inner[k]).rule
        == Rule::BracketStart ==> header_name(inner[k]) is Some) && (inner[k].rule == rule ==> f(
        inner[k],
    ) is Some) by {
        if k > 0 {
            assert(inner[k] == items[k - 1]);
        }
    }
    lemma_selected_build(inner, set![Rule::BracketStart], |n: NodeView| header_name(n));
    lemma_selected_build(inner, set![rule], f);
}

/// The children of a node behind the first fit where the node does.
proof fn lemma_items_fit(node: NodeView, first: NodeView, items: Seq<NodeView>)
    requires
        node.inner == seq![first] + items,
        numbers_fit(node),
    ensures
        numbers_fit(first),
        forall|k: int| 0 <= k < items.len() ==> numbers_fit(#[trigger] items[k]),
{
    assert(node.inner[0] == first);
    assert forall|k: int| 0 <= k < items.len() implies numbers_fit(#[trigger] items[k]) by {
        assert(node.inner[k + 1] == items[k]);
    }
}

/// A struct that the grammar gave builds where its numbers fit.
pub proof fn lemma_struct_builds(s: Seq<char>, i: int)
    requires
        0 <= i <= s.len(),
    ensures
        struct_at(s, i) matches Some((node, _)) ==> node.rule == Rule::Struct && (numbers_fit(node)
            ==> struct_of(node) is Some),
{
    if let Some((node, _)) = struct_at(s, i) {
        if numbers_fit(node) {
            let (header, e) = header_at(s, i, "struct"@).unwrap();
            lemma_header_builds(s, i, "struct"@);
            lemma_header_advances(s, i, "struct"@);
            lemma_skip_space_bounds(s, e);
            lemma_fields_build(s, skip_space(s, e));
            let fields = fields_at(s, skip_space(s, e)).unwrap().0;
            lemma_items_fit(node, header, fields);
            lemma_block(header, fields, Rule::TypeDecl, |n: NodeView| def_of(n));
        }
    }
}

/// A member that the grammar gave builds where its number fits.
pub proof fn lemma_member_builds(s: Seq<char>, i: int)
    ensures
        member_at(s, i) matches Some((node, _)) ==> node.rule == Rule::EnumDecl && (numbers_fit(
            node,
        ) ==> enum_value_of(node) is Some),
{
    if let Some((node, _)) = member_at(s, i) {
        if numbers_fit(node) {
            assert forall|k: int|
                0 <= k < node.inner.len() && set![Rule::Number].contains(
                    (#[trigger] node.inner[k]).rule,
                ) implies integer_of(node.inner[k].text) is Some by {
                assert(numbers_fit(node.inner[k]));
            }
            lemma_selected_build(
                node.inner,
                set![Rule::Number],
                |n: NodeView| integer_of(n.text),
            );
        }
    }
}

/// The members that the grammar gave are enum entries that build.
pub proof fn lemma_members_build(s: Seq<char>, i: int)
    requires
        0 <= i <= s.len(),
    ensures
        members_at(s, i) matches Some((members, _)) ==> all_build(
            members,
            Rule::EnumDecl,
            |n: NodeView| enum_value_of(n),
        ),
    decreases s.len() - i,
{
    if let Some((member, e)) = member_at(s, i) {
        let k = skip_space(s, e);
        lemma_member_builds(s, i);
        let none = Seq::<NodeView>::empty();
        assert(all_build(none, Rule::EnumDecl, |n: NodeView| enum_value_of(n)));
        if symbol_at(s, k, ',') {
            let next = skip_space(s, k + 1);
            lemma_member_advances(s, i);
            lemma_skip_space_bounds(s, e);
            lemma_skip_space_bounds(s, k + 1);
            lemma_members_build(s, next);
            if let Some((rest, _)) = members_at(s, next) {
                lemma_all_build_first(member, rest, Rule::EnumDecl, |n: NodeView| enum_value_of(n));
            }
        } else if symbol_at(s, k, '}') {
            lemma_all_build_first(member, none, Rule::EnumDecl, |n: NodeView| enum_value_of(n));
            assert(seq![member] + none == seq![member]);
        }
    }
}

/// An enum that the grammar gave builds where its numbers fit.
pub proof fn lemma_enum_builds(s: Seq<char>, i: int)
    requires
        0 <= i <= s.len(),
    ensures
        enum_at(s, i) matches Some((node, _)) ==> node.rule == Rule::Enum && (numbers_fit(node)
            ==> enum_of(node) is Some),
{
    if let Some((node, _)) = enum_at(s, i) {
        if numbers_fit(node) {
            let (header, e) = header_at(s, i, "enum"@).unwrap();
            lemma_header_builds(s, i, "enum"@);
            lemma_header_advances(s, i, "enum"@);
            lemma_skip_space_bounds(s, e);
            let j = skip_space(s, e);
            let none = Seq::<NodeView>::empty();
            if symbol_at(s, j, '}') {
                assert(seq![header] + none == seq![header]);
                assert(all_build(none, Rule::EnumDecl, |n: NodeView| enum_value_of(n)));
                lemma_block(header, none, Rule::EnumDecl, |n: NodeView| enum_value_of(n));
            } else {
                lemma_members_build(s, j);
                let members = members_at(s, j).unwrap().0;
                lemma_items_fit(node, header, members);
                lemma_block(header, members, Rule::EnumDecl, |n: NodeView| enum_value_of(n));
            }
        }
    }
}

/// An arm that the grammar gave builds where its number fits.
pub proof fn lemma_case_builds(s: Seq<char>, i: int)
    ensures
        case_at(s, i) matches Some((node, _)) ==> node.rule == Rule::CaseStatement && (numbers_fit(
            node,
        ) ==> case_of(node) is Some),
{
    if let Some((node, _)) = case_at(s, i) {
        if numbers_fit(node) {
            let e = name_at(s, skip_space(s, word_end(s, i))).unwrap().1;
            let k = skip_space(s, e);
            let m = skip_space(s, k + 1);
            lemma_type_decl_builds(s, m);
            assert forall|q: int|
                0 <= q < node.inner.len() && set![Rule::TypeDecl].contains(
                    (#[trigger] node.inner[q]).rule,
                ) implies def_of(node.inner[q]) is Some by {
                assert(numbers_fit(node.inner[q]));
            }
            lemma_selected_build(node.inner, set![Rule::TypeDecl], |n: NodeView| def_of(n));
        }
    }
}

/// The arms that the grammar gave are cases that build.
pub proof fn lemma_cases_build(s: Seq<char>, i: int)
    requires
        0 <= i <= s.len(),
    ensures
        cases_at(s, i) matches Some((arms, _)) ==> all_build(
            arms,
            Rule::CaseStatement,
            |n: NodeView| case_of(n),
        ),
    decreases s.len() - i,
{
    if !symbol_at(s, i, '}') {
        if let Some((arm, e)) = case_at(s, i) {
            let next = skip_space(s, e);
            lemma_case_builds(s, i);
            lemma_case_advances(s, i);
            lemma_skip_space_bounds(s, e);
            lemma_cases_build(s, next);
            if let Some((rest, _)) = cases_at(s, next) {
                lemma_all_build_first(arm, rest, Rule::CaseStatement, |n: NodeView| case_of(n));
            }
        }
    }
}

/// A switch that the grammar gave builds where its numbers fit.
pub proof fn lemma_switch_builds(s: Seq<char>, i: int)
    requires
        0 <= i <= s.len(),
    ensures
        switch_at(s, i) matches Some((node, _)) ==> node.rule == Rule::Switch && (numbers_fit(node)
            ==> switch_of(node) is Some),
{
    if let Some((node, _)) = switch_at(s, i) {
        if numbers_fit(node) {
            lemma_word_end_bounds(s, i);
            lemma_skip_space_bounds(s, word_end(s, i));
            let j = skip_space(s, word_end(s, i));
            lemma_skip_space_bounds(s, j + 1);
            let a = skip_space(s, j + 1);
            let (param, e) = param_at(s, a).unwrap();
            lemma_name_advances(s, a);
            let e1 = name_at(s, a).unwrap().1;
            lemma_skip_space_bounds(s, e1);
            lemma_name_advances(s, skip_space(s, e1));
            lemma_skip_space_bounds(s, e);
            let m = skip_space(s, e);
            lemma_skip_space_bounds(s, m + 1);
            let q = skip_space(s, m + 1);
            lemma_skip_space_bounds(s, q + 1);
            let start = skip_space(s, q + 1);
            lemma_cases_build(s, start);
            let arms = cases_at(s, start).unwrap().0;
            lemma_items_fit(node, param, arms);
            let inner = seq![param] + arms;
            assert forall|k: int|
                0 <= k < inner.len() && set![Rule::CaseStatement].contains(
                    (#[trigger] inner[k]).rule,
                ) implies case_of(inner[k]) is Some by {
                if k > 0 {
                    assert(inner[k] == arms[k - 1]);
                }
            }
            lemma_selected_build(inner, set![Rule::CaseStatement], |n: NodeView| case_of(n));
        }
    }
}

/// A union that the grammar gave builds where its numbers fit.
pub proof fn lemma_union_builds(s: Seq<char>, i: int)
    requires
        0 <= i <= s.len(),
    ensures
        union_at(s, i) matches Some((node, _)) ==> node.rule == Rule::Union && (numbers_fit(node)
            ==> union_of(node) is Some),
{
    if let Some((node, _)) = union_at(s, i) {
        if numbers_fit(node) {
            lemma_word_end_bounds(s, i);
            lemma_skip_space_bounds(s, word_end(s, i));
            let j = skip_space(s, word_end(s, i));
            lemma_name_advances(s, j);
            let e = name_at(s, j).unwrap().1;
            lemma_skip_space_bounds(s, e);
            lemma_switch_builds(s, skip_space(s, e));
            assert forall|k: int|
                0 <= k < node.inner.len() && set![Rule::Switch].contains(
                    (#[trigger] node.inner[k]).rule,
                ) implies switch_of(node.inner[k]) is Some by {
                assert(numbers_fit(node.inner[k]));
            }
            lemma_selected_build(node.inner, set![Rule::Switch], |n: NodeView| switch_of(n));
        }
    }
}

/// Whether a declaration of one of the four kinds builds where its
/// numbers fit.
pub open spec fn declaration_builds(node: NodeView) -> bool {
    &&& node.rule == Rule::Typedef || node.rule == Rule::Struct || node.rule == Rule::Enum
        || node.rule == Rule::Union
    &&& numbers_fit(node) ==> {
        &&& node.rule == Rule::Typedef ==> typedef_of(node) is Some
        &&& node.rule == Rule::Struct ==> struct_of(node) is Some
        &&& node.rule == Rule::Enum ==> enum_of(node) is Some
        &&& node.rule == Rule::Union ==> union_of(node) is Some
    }
}

/// A declaration that the grammar gave builds where its numbers fit.
pub proof fn lemma_declaration_builds(s: Seq<char>, i: int)
    requires
        0 <= i <= s.len(),
    ensures
        declaration_at(s, i) matches Some((node, _)) ==> declaration_builds(node),
{
    lemma_typedef_builds(s, i);
    lemma_struct_builds(s, i);
    lemma_enum_builds(s, i);
    lemma_union_builds(s, i);
}

/// The declarations that the grammar gave all build.
pub proof fn lemma_declarations_build(s: Seq<char>, i: int)
    requires
        0 <= i <= s.len(),
    ensures
        declarations_at(s, i) matches Some((decls, _)) ==> forall|k: int|
            0 <= k < decls.len() ==> declaration_builds(#[trigger] decls[k]),
    decreases s.len() - i,
{
    if !symbol_at(s, i, '}') {
        if let Some((decl, e)) = declaration_at(s, i) {
            let next = skip_space(s, e);
            lemma_declaration_builds(s, i);
            lemma_declaration_advances(s, i);
            lemma_skip_space_bounds(s, e);
            lemma_declarations_build(s, next);
            if let Some((rest, _)) = declarations_at(s, next) {
                let all = seq![decl] + rest;
                assert forall|k: int| 0 <= k < all.len() implies declaration_builds(
                    #[trigger] all[k],
                ) by {
                    if k > 0 {
                        assert(all[k] == rest[k - 1]);
                    }
                }
            }
        }
    }
}

/// A namespace that the grammar gave builds where its numbers fit.
pub proof fn lemma_namespace_builds(s: Seq<char>, i: int)
    requires
        0 <= i <= s.len(),
    ensures
        namespace_at(s, i) matches Some((node, _)) ==> node.rule == Rule::Namespace && (numbers_fit(
            node,
        ) ==> namespace_of(node) is Some),
{
    if let Some((node, _)) = namespace_at(s, i) {
        if numbers_fit(node) {
            let (header, e) = header_at(s, i, "namespace"@).unwrap();
            lemma_header_builds(s, i, "namespace"@);
            lemma_header_advances(s, i, "namespace"@);
            lemma_skip_space_bounds(s, e);
            lemma_declarations_build(s, skip_space(s, e));
            let decls = declarations_at(s, skip_space(s, e)).unwrap().0;
            lemma_items_fit(node, header, decls);
            let inner = seq![header] + decls;
            assert forall|k: int| 0 <= k < inner.len() implies {
                &&& (#[trigger] inner[k]).rule == Rule::BracketStart ==> header_name(inner[k])
                    is Some
                &&& inner[k].rule == Rule::Typedef ==> typedef_of(inner[k]) is Some
                &&& inner[k].rule == Rule::Struct ==> struct_of(inner[k]) is Some
                &&& inner[k].rule == Rule::Enum ==> enum_of(inner[k]) is Some
                &&& inner[k].rule == Rule::Union ==> union_of(inner[k]) is Some
            } by {
                if k > 0 {
                    assert(inner[k] == decls[k - 1]);
                    assert(declaration_builds(decls[k - 1]));
                }
            }
            lemma_selected_build(inner, set![Rule::BracketStart], |n: NodeView| header_name(n));
            lemma_selected_build(inner, set![Rule::Typedef], |n: NodeView| typedef_of(n));
            lemma_selected_build(inner, set![Rule::Struct], |n: NodeView| struct_of(n));
            lemma_selected_build(inner, set![Rule::Enum], |n: NodeView| enum_of(n));
            lemma_selected_build(inner, set![Rule::Union], |n: NodeView| union_of(n));
        }
    }
}

/// The namespaces that the grammar gave all build.
pub proof fn lemma_namespaces_build(s: Seq<char>, i: int)
    requires
        0 <= i <= s.len(),
    ensures
        namespaces_at(s, i) matches Some(found) ==> all_build(
            found,
            Rule::Namespace,
            |n: NodeView| namespace_of(n),
        ),
    decreases s.len() - i,
{
    if i < s.len() {
        if let Some((ns, e)) = namespace_at(s, i) {
            let next = skip_space(s, e);
            lemma_namespace_builds(s, i);
            lemma_namespace_advances(s, i);
            lemma_skip_space_bounds(s, e);
            lemma_namespaces_build(s, next);
            if let Some(rest) = namespaces_at(s, next) {
                lemma_all_build_first(ns, rest, Rule::Namespace, |n: NodeView| namespace_of(n));
            }
        }
    }
}

/// A source that conforms to the grammar builds wherever the numbers in
/// it fit: no tree that the grammar gives has a shape that the builder
/// refuses.
pub proof fn law_parsed_source_builds(text: Seq<char>)
    ensures
        parse_file(text) matches Some(file) ==> (numbers_fit(file) ==> namespaces_of(file) is Some
            && declarations_of(text) is Ok),
{
    if let Some(file) = parse_file(text) {
        if numbers_fit(file) {
            lemma_skip_space_bounds(text, 0);
            lemma_namespaces_build(text, skip_space(text, 0));
            assert forall|k: int|
                0 <= k < file.inner.len() && set![Rule::Namespace].contains(
                    (#[trigger] file.inner[k]).rule,
                ) implies namespace_of(file.inner[k]) is Some by {
                assert(numbers_fit(file.inner[k]));
            }
            lemma_selected_build(
                file.inner,
                set![Rule::Namespace],
                |n: NodeView| namespace_of(n),
            );
        }
    }
}

} // verus!
