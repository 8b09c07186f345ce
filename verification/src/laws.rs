//! What holds of the library whatever the input: statements that relate
//! several of its functions, each proved from their definitions.

use crate::ast::{
    DefView, EnumValueView, Error, NamespaceView, StructView, TypedefView, UNBOUNDED,
};
use crate::builder::{
    array_info, array_infos, case_of, def_of, defs, dimension_of, dimensions, enum_of,
    enum_value_of, namespace_of, numbers, struct_of, switch_of, typedef_of, union_of,
};
use crate::generator::{
    each_def, map_def, map_namespace, map_namespaces, struct_with, union_with,
};
use crate::generator::go::go_types;
use crate::generator::js::js_types;
use crate::generator::rust::rust_types;
use crate::grammar::{branch, token};
use crate::schema::{
    basic_type_of, column_of, columns_of, declared_structs, declared_typedefs, flatten,
    is_byte_sequence, marked, schema_for, structs_by_name, table_of, typedefs_by_name,
    ColumnView,
};
use crate::text::{all_digits, decimal_value, integer_of, text_among};
use crate::tree::{last_or, lemma_select_add, select, traverse, NodeView, Rule};
use vstd::prelude::*;

verus! {

/// None of the primitive names is empty.
pub proof fn lemma_empty_is_no_primitive()
    ensures
        basic_type_of(Seq::<char>::empty()) is None,
{
    reveal_strlit("boolean");
    reveal_strlit("string");
    reveal_strlit("opaque");
    reveal_strlit("int");
    reveal_strlit("unsigned int");
    reveal_strlit("hyper");
    reveal_strlit("unsigned hyper");
    reveal_strlit("float");
    reveal_strlit("double");
    let e = Seq::<char>::empty();
    assert("boolean"@.len() == 7);
    assert("string"@.len() == 6);
    assert("opaque"@.len() == 6);
    assert("int"@.len() == 3);
    assert("unsigned int"@.len() == 12);
    assert("hyper"@.len() == 5);
    assert("unsigned hyper"@.len() == 14);
    assert("float"@.len() == 5);
    assert("double"@.len() == 6);
}

/// A union arm that declares no type carries the void occurrence: its
/// name is `void` and its type is empty.
pub proof fn law_arm_without_type_is_void(arm: NodeView)
    requires
        select(arm.inner, set![Rule::TypeDecl]).len() == 0,
    ensures
        case_of(arm) is Some,
        case_of(arm).unwrap().ret_type == DefView::void(),
{
}

/// The void occurrence has no column: flattening it is a resolution
/// error, whatever is declared, as long as no declaration has the empty
/// name.
pub proof fn law_void_has_no_column(
    structs: Map<Seq<char>, StructView>,
    typedefs: Map<Seq<char>, DefView>,
)
    requires
        structs.dom().finite(),
        typedefs.dom().finite(),
        !structs.contains_key(Seq::empty()),
        !typedefs.contains_key(Seq::empty()),
    ensures
        flatten(DefView::void(), structs, typedefs) == Err::<ColumnView, Error>(Error::Resolution),
{
    lemma_empty_is_no_primitive();
}

/// A name that is a typedef resolves as a typedef, whether or not a
/// struct has the same name: the column is a typedef column under the
/// field's own name, and the struct of that name is never looked at.
pub proof fn law_typedef_precedes_struct(
    def: DefView,
    structs: Map<Seq<char>, StructView>,
    typedefs: Map<Seq<char>, DefView>,
    shadowed: StructView,
)
    requires
        structs.dom().finite(),
        typedefs.dom().finite(),
        typedefs.contains_key(def.type_id),
    ensures
        flatten(def, structs, typedefs) matches Ok(column) ==> column is Typedef
            && column->Typedef_name == def.name,
        flatten(def, structs.insert(def.type_id, shadowed), typedefs) == flatten(
            def,
            structs.remove(def.type_id),
            typedefs,
        ),
{
    let name = def.type_id;
    let all = structs.dom().union(typedefs.dom());
    assert(structs.insert(name, shadowed).dom().union(typedefs.dom()) =~= structs.remove(
        name,
    ).dom().union(typedefs.dom()));
    lemma_shadowed_struct_unused(
        def,
        structs.insert(name, shadowed),
        structs.remove(name),
        typedefs,
        structs.remove(name).dom().union(typedefs.dom()),
        name,
    );
}

/// Two struct catalogs that differ only at a name that is a typedef give
/// the same column for every field.
proof fn lemma_shadowed_struct_unused(
    def: DefView,
    a: Map<Seq<char>, StructView>,
    b: Map<Seq<char>, StructView>,
    typedefs: Map<Seq<char>, DefView>,
    available: Set<Seq<char>>,
    name: Seq<char>,
)
    requires
        available.finite(),
        typedefs.contains_key(name),
        forall|n: Seq<char>| n != name ==> a.contains_key(n) == b.contains_key(n),
        forall|n: Seq<char>| n != name && a.contains_key(n) ==> a[n] == b[n],
    ensures
        column_of(def, a, typedefs, available) == column_of(def, b, typedefs, available),
    decreases available.len(), (if def.array_size != 0 { 1nat } else { 0nat }), 0nat,
{
    if typedefs.contains_key(def.type_id) {
        if def.array_size != 0 {
            lemma_shadowed_struct_unused(def.element(), a, b, typedefs, available, name);
        } else if available.contains(def.type_id) {
            lemma_shadowed_struct_unused(
                typedefs[def.type_id],
                a,
                b,
                typedefs,
                available.remove(def.type_id),
                name,
            );
        }
    } else if a.contains_key(def.type_id) {
        if def.array_size != 0 {
            lemma_shadowed_struct_unused(def.element(), a, b, typedefs, available, name);
        } else if available.contains(def.type_id) {
            lemma_shadowed_struct_unused_all(
                a[def.type_id].props,
                a,
                b,
                typedefs,
                available.remove(def.type_id),
                name,
            );
        }
    } else if def.array_size != 0 && !is_byte_sequence(def.type_id) {
        lemma_shadowed_struct_unused(def.element(), a, b, typedefs, available, name);
    }
}

proof fn lemma_shadowed_struct_unused_all(
    props: Seq<DefView>,
    a: Map<Seq<char>, StructView>,
    b: Map<Seq<char>, StructView>,
    typedefs: Map<Seq<char>, DefView>,
    available: Set<Seq<char>>,
    name: Seq<char>,
)
    requires
        available.finite(),
        typedefs.contains_key(name),
        forall|n: Seq<char>| n != name ==> a.contains_key(n) == b.contains_key(n),
        forall|n: Seq<char>| n != name && a.contains_key(n) ==> a[n] == b[n],
    ensures
        columns_of(props, a, typedefs, available) == columns_of(props, b, typedefs, available),
    decreases available.len(), 2nat, props.len(),
{
    if props.len() > 0 {
        lemma_shadowed_struct_unused_all(props.drop_last(), a, b, typedefs, available, name);
        lemma_shadowed_struct_unused(props.last(), a, b, typedefs, available, name);
    }
}

/// Catalogs that agree stay in agreement when the same declarations
/// follow.
proof fn lemma_structs_extend(a: Seq<StructView>, b: Seq<StructView>, more: Seq<StructView>)
    requires
        structs_by_name(a) == structs_by_name(b),
    ensures
        structs_by_name(a + more) == structs_by_name(b + more),
    decreases more.len(),
{
    if more.len() == 0 {
        assert(a + more == a);
        assert(b + more == b);
    } else {
        lemma_structs_extend(a, b, more.drop_last());
        assert((a + more).drop_last() == a + more.drop_last());
        assert((b + more).drop_last() == b + more.drop_last());
    }
}

proof fn lemma_typedefs_extend(a: Seq<DefView>, b: Seq<DefView>, more: Seq<DefView>)
    requires
        typedefs_by_name(a) == typedefs_by_name(b),
    ensures
        typedefs_by_name(a + more) == typedefs_by_name(b + more),
    decreases more.len(),
{
    if more.len() == 0 {
        assert(a + more == a);
        assert(b + more == b);
    } else {
        lemma_typedefs_extend(a, b, more.drop_last());
        assert((a + more).drop_last() == a + more.drop_last());
        assert((b + more).drop_last() == b + more.drop_last());
    }
}

/// Two structs of different names can change places in the source: the
/// catalog is the same.
pub proof fn law_structs_change_places(
    before: Seq<StructView>,
    x: StructView,
    y: StructView,
    after: Seq<StructView>,
)
    requires
        x.name != y.name,
    ensures
        structs_by_name(before + seq![x, y] + after) == structs_by_name(
            before + seq![y, x] + after,
        ),
{
    let a = before + seq![x, y];
    let b = before + seq![y, x];
    assert(a.drop_last() == before.push(x));
    assert(b.drop_last() == before.push(y));
    assert(before.push(x).drop_last() == before);
    assert(before.push(y).drop_last() == before);
    assert(a.last() == y && b.last() == x);
    assert(before.push(x).last() == x && before.push(y).last() == y);
    let base = structs_by_name(before);
    assert(structs_by_name(before.push(x)) == base.insert(x.name, x));
    assert(structs_by_name(before.push(y)) == base.insert(y.name, y));
    assert(structs_by_name(a) == base.insert(x.name, x).insert(y.name, y));
    assert(structs_by_name(b) == base.insert(y.name, y).insert(x.name, x));
    assert(structs_by_name(a) =~= structs_by_name(b));
    lemma_structs_extend(a, b, after);
}

/// Two typedefs of different names can change places in the source: the
/// catalog is the same.
pub proof fn law_typedefs_change_places(
    before: Seq<DefView>,
    x: DefView,
    y: DefView,
    after: Seq<DefView>,
)
    requires
        x.name != y.name,
    ensures
        typedefs_by_name(before + seq![x, y] + after) == typedefs_by_name(
            before + seq![y, x] + after,
        ),
{
    let a = before + seq![x, y];
    let b = before + seq![y, x];
    assert(a.drop_last() == before.push(x));
    assert(b.drop_last() == before.push(y));
    assert(before.push(x).drop_last() == before);
    assert(before.push(y).drop_last() == before);
    assert(a.last() == y && b.last() == x);
    assert(before.push(x).last() == x && before.push(y).last() == y);
    let base = typedefs_by_name(before);
    assert(typedefs_by_name(before.push(x)) == base.insert(x.name, x));
    assert(typedefs_by_name(before.push(y)) == base.insert(y.name, y));
    assert(typedefs_by_name(a) == base.insert(x.name, x).insert(y.name, y));
    assert(typedefs_by_name(b) == base.insert(y.name, y).insert(x.name, x));
    assert(typedefs_by_name(a) =~= typedefs_by_name(b));
    lemma_typedefs_extend(a, b, after);
}

/// Selecting from lists put in a row, three and four at a time.
proof fn lemma_select_moved(
    before: Seq<NodeView>,
    moved: NodeView,
    between: Seq<NodeView>,
    after: Seq<NodeView>,
    rules: Set<Rule>,
)
    requires
        rules.contains(moved.rule) ==> select(between, rules).len() == 0,
    ensures
        select(before + seq![moved] + between + after, rules) == select(
            before + between + seq![moved] + after,
            rules,
        ),
{
    let one = seq![moved];
    lemma_select_add(before + one + between, after, rules);
    lemma_select_add(before + one, between, rules);
    lemma_select_add(before, one, rules);
    lemma_select_add(before + between + one, after, rules);
    lemma_select_add(before + between, one, rules);
    lemma_select_add(before, between, rules);
    assert(one.drop_last() == Seq::<NodeView>::empty());
    assert(one.last() == moved);
    assert(select(one.drop_last(), rules) == Seq::<NodeView>::empty());
    if rules.contains(moved.rule) {
        assert(select(between, rules) == Seq::<NodeView>::empty());
        assert(select(before, rules) + select(one, rules) + Seq::<NodeView>::empty() == select(
            before,
            rules,
        ) + Seq::<NodeView>::empty() + select(one, rules));
    } else {
        assert(select(one, rules) == Seq::<NodeView>::empty());
        assert(select(before, rules) + Seq::<NodeView>::empty() + select(between, rules)
            == select(before, rules) + select(between, rules) + Seq::<NodeView>::empty());
    }
}

/// No node of a list has the rule.
pub open spec fn none_has(nodes: Seq<NodeView>, rule: Rule) -> bool {
    forall|i: int| 0 <= i < nodes.len() ==> (#[trigger] nodes[i]).rule != rule
}

proof fn lemma_select_none(nodes: Seq<NodeView>, rule: Rule)
    requires
        none_has(nodes, rule),
    ensures
        select(nodes, set![rule]).len() == 0,
    decreases nodes.len(),
{
    if nodes.len() > 0 {
        assert forall|i: int| 0 <= i < nodes.drop_last().len() implies (
        #[trigger] nodes.drop_last()[i]).rule != rule by {
            assert(nodes.drop_last()[i] == nodes[i]);
        }
        lemma_select_none(nodes.drop_last(), rule);
        assert(nodes.last() == nodes[nodes.len() - 1]);
    }
}

/// A declaration can stand before or behind declarations of other kinds:
/// the namespace is the same. So a struct may refer to a typedef that is
/// declared after it.
pub proof fn law_declarations_change_places(
    before: Seq<NodeView>,
    moved: NodeView,
    between: Seq<NodeView>,
    after: Seq<NodeView>,
)
    requires
        none_has(between, moved.rule),
    ensures
        namespace_of(branch(Rule::Namespace, before + seq![moved] + between + after))
            == namespace_of(branch(Rule::Namespace, before + between + seq![moved] + after)),
{
    lemma_select_none(between, moved.rule);
    let rule = moved.rule;
    assert(set![rule].contains(rule));
    lemma_select_moved(before, moved, between, after, set![Rule::BracketStart]);
    lemma_select_moved(before, moved, between, after, set![Rule::Typedef]);
    lemma_select_moved(before, moved, between, after, set![Rule::Struct]);
    lemma_select_moved(before, moved, between, after, set![Rule::Enum]);
    lemma_select_moved(before, moved, between, after, set![Rule::Union]);
}

/// Base-type substitution treats each occurrence by itself: what becomes
/// of the structs of a namespace does not depend on what else the
/// namespace declares, nor on where.
pub proof fn law_mapping_by_occurrence(
    first: NamespaceView,
    second: NamespaceView,
    table: Map<Seq<char>, Seq<char>>,
)
    ensures
        first.structs == second.structs ==> map_namespace(first, table).structs == map_namespace(
            second,
            table,
        ).structs,
        first.typedefs == second.typedefs ==> map_namespace(first, table).typedefs
            == map_namespace(second, table).typedefs,
        first.unions == second.unions ==> map_namespace(first, table).unions == map_namespace(
            second,
            table,
        ).unions,
{
}

/// A table none of whose spellings is itself an entry.
pub open spec fn spells_once(table: Map<Seq<char>, Seq<char>>) -> bool {
    forall|k: Seq<char>| table.contains_key(k) ==> !table.contains_key(#[trigger] table[k])
}

/// Substituting twice is substituting once, for a table none of whose
/// spellings is itself an entry.
pub proof fn law_mapping_twice(namespaces: Seq<NamespaceView>, table: Map<Seq<char>, Seq<char>>)
    requires
        spells_once(table),
    ensures
        map_namespaces(map_namespaces(namespaces, table), table) == map_namespaces(
            namespaces,
            table,
        ),
{
    let once = map_namespaces(namespaces, table);
    let twice = map_namespaces(once, table);
    let f = |d: DefView| map_def(d, table);
    assert forall|d: DefView| #[trigger] f(f(d)) == f(d) by {}
    assert forall|i: int| 0 <= i < namespaces.len() implies twice[i] == once[i] by {
        let a = namespaces[i];
        let b = each_def(a, f);
        let c = each_def(b, f);
        assert(once[i] == b);
        assert(twice[i] == c);
        assert(c.typedefs =~= b.typedefs);
        assert forall|j: int| 0 <= j < b.structs.len() implies c.structs[j] == b.structs[j] by {
            assert(struct_with(b.structs[j], f).props =~= b.structs[j].props);
        }
        assert(c.structs =~= b.structs);
        assert forall|j: int| 0 <= j < b.unions.len() implies c.unions[j] == b.unions[j] by {
            assert(union_with(b.unions[j], f).switch.cases =~= b.unions[j].switch.cases);
        }
        assert(c.unions =~= b.unions);
    }
    assert(twice =~= once);
}


/// What `traverse` returns holds what `f` makes of each node, at the
/// node's own place.
pub proof fn lemma_traverse_items<T>(nodes: Seq<NodeView>, f: spec_fn(NodeView) -> Option<T>)
    ensures
        traverse(nodes, f) matches Some(items) ==> items.len() == nodes.len() && forall|k: int|
            0 <= k < nodes.len() ==> f(#[trigger] nodes[k]) == Some(items[k]),
    decreases nodes.len(),
{
    if nodes.len() > 0 {
        lemma_traverse_items(nodes.drop_last(), f);
        if let Some(items) = traverse(nodes, f) {
            assert forall|k: int| 0 <= k < nodes.len() implies f(#[trigger] nodes[k]) == Some(
                items[k],
            ) by {
                if k < nodes.len() - 1 {
                    assert(nodes.drop_last()[k] == nodes[k]);
                }
            }
        }
    }
}

/// The dimension that an array suffix gives is never negative, and where
/// it is fixed it is not the unbounded mark.
proof fn lemma_array_info_sound(suffix: NodeView)
    ensures
        array_info(suffix) matches Some(info) ==> 0 <= info.1 && (info.0 ==> info.1
            != UNBOUNDED),
{
    let tokens = select(suffix.inner, set![Rule::VarArray, Rule::FixedArray]);
    lemma_traverse_items(tokens, |n: NodeView| dimension_of(n));
    if let Some(found) = dimensions(suffix.inner) {
        if found.len() > 0 {
            let k = found.len() - 1;
            assert(dimension_of(tokens[k]) == Some(found[k]));
        }
    }
}

/// Every occurrence that the builder makes of a type declaration is well
/// formed: its dimension is never negative, and a fixed array always has a
/// bound of its own.
pub proof fn law_built_def_well_formed(decl: NodeView)
    ensures
        def_of(decl) matches Some(def) ==> def.well_formed(),
{
    let suffixes = select(decl.inner, set![Rule::ArrayDef]);
    lemma_traverse_items(suffixes, |n: NodeView| array_info(n));
    if let Some(found) = array_infos(decl.inner) {
        if found.len() > 0 {
            let k = found.len() - 1;
            assert(array_info(suffixes[k]) == Some(found[k]));
            lemma_array_info_sound(suffixes[k]);
        }
    }
}

/// Of the structs that share a name, the one declared last is the one the
/// catalog holds.
pub proof fn law_last_struct_stands(structs: Seq<StructView>, k: int)
    requires
        0 <= k < structs.len(),
        forall|j: int| k < j < structs.len() ==> (#[trigger] structs[j]).name != structs[k].name,
    ensures
        structs_by_name(structs).contains_key(structs[k].name),
        structs_by_name(structs)[structs[k].name] == structs[k],
    decreases structs.len(),
{
    if k < structs.len() - 1 {
        assert(structs.last() == structs[structs.len() - 1]);
        assert(structs.drop_last()[k] == structs[k]);
        assert forall|j: int| k < j < structs.drop_last().len() implies (
        #[trigger] structs.drop_last()[j]).name != structs.drop_last()[k].name by {
            assert(structs.drop_last()[j] == structs[j]);
        }
        law_last_struct_stands(structs.drop_last(), k);
    }
}

/// Of the typedefs that share an alias, the one declared last is the one
/// the catalog holds.
pub proof fn law_last_typedef_stands(typedefs: Seq<DefView>, k: int)
    requires
        0 <= k < typedefs.len(),
        forall|j: int| k < j < typedefs.len() ==> (#[trigger] typedefs[j]).name != typedefs[k].name,
    ensures
        typedefs_by_name(typedefs).contains_key(typedefs[k].name),
        typedefs_by_name(typedefs)[typedefs[k].name] == typedefs[k],
    decreases typedefs.len(),
{
    if k < typedefs.len() - 1 {
        assert(typedefs.last() == typedefs[typedefs.len() - 1]);
        assert(typedefs.drop_last()[k] == typedefs[k]);
        assert forall|j: int| k < j < typedefs.drop_last().len() implies (
        #[trigger] typedefs.drop_last()[j]).name != typedefs.drop_last()[k].name by {
            assert(typedefs.drop_last()[j] == typedefs[j]);
        }
        law_last_typedef_stands(typedefs.drop_last(), k);
    }
}


/// What an array token says: `<>` is variable and unbounded; `<n>` is
/// variable and `[n]` fixed, each with the bound that the digits write.
pub proof fn law_array_bounds(digits: Seq<char>)
    requires
        digits.len() > 0,
        all_digits(digits),
        decimal_value(digits) < UNBOUNDED,
    ensures
        dimension_of(token(Rule::VarArray, seq!['<', '>'])) == Some((false, UNBOUNDED)),
        dimension_of(token(Rule::VarArray, seq!['<'] + digits + seq!['>'])) == Some(
            (false, decimal_value(digits) as i32),
        ),
        dimension_of(token(Rule::FixedArray, seq!['['] + digits + seq![']'])) == Some(
            (true, decimal_value(digits) as i32),
        ),
{
    let empty = seq!['<', '>'];
    assert(empty.subrange(1, 1) == Seq::<char>::empty());
    let var = seq!['<'] + digits + seq!['>'];
    assert(var.subrange(1, var.len() - 1) == digits);
    let fixed = seq!['['] + digits + seq![']'];
    assert(fixed.subrange(1, fixed.len() - 1) == digits);
}

/// An enum keeps the integers of the source: each member has the number
/// that its own declaration writes, whatever its place in the list.
pub proof fn law_enum_values_kept(node: NodeView, k: int)
    requires
        0 <= k < select(node.inner, set![Rule::EnumDecl]).len(),
    ensures
        enum_of(node) matches Some(found) ==> {
            let member = select(node.inner, set![Rule::EnumDecl])[k];
            &&& found.values.len() == select(node.inner, set![Rule::EnumDecl]).len()
            &&& enum_value_of(member) == Some(found.values[k])
            &&& numbers(member.inner) matches Some(written)
            &&& found.values[k].index == last_or(written, 0i32)
        },
{
    lemma_traverse_items(
        select(node.inner, set![Rule::EnumDecl]),
        |n: NodeView| enum_value_of(n),
    );
}

/// The member that a name and a number stand for has that name and the
/// integer that the number writes.
pub proof fn law_enum_member(name: Seq<char>, number: Seq<char>)
    ensures
        enum_value_of(
            branch(Rule::EnumDecl, seq![token(Rule::Identifier, name), token(Rule::Number, number)]),
        ) == match integer_of(number) {
            Some(index) => Some(EnumValueView { name, index }),
            None => None,
        },
{
    let a = token(Rule::Identifier, name);
    let b = token(Rule::Number, number);
    let inner = seq![a, b];
    assert(inner.drop_last() == seq![a]);
    assert(seq![a].drop_last() == Seq::<NodeView>::empty());
    assert(inner.last() == b && seq![a].last() == a);
    let ids = set![Rule::Identifier];
    let nums = set![Rule::Number];
    let none = Seq::<NodeView>::empty();
    assert(select(none, ids) == none && select(none, nums) == none);
    assert(ids.contains(a.rule) && !nums.contains(a.rule));
    assert(nums.contains(b.rule) && !ids.contains(b.rule));
    assert(select(seq![a], ids) == none.push(a));
    assert(none.push(a) == seq![a]);
    assert(none.push(b) == seq![b]);
    assert(select(seq![a], ids) == seq![a]);
    assert(select(inner, ids) == seq![a]);
    assert(select(seq![a], nums) == Seq::<NodeView>::empty());
    assert(select(inner, nums) == seq![b]);
    assert(seq![b].drop_last() == Seq::<NodeView>::empty());
    assert(seq![b].last() == b);
    let read = |n: NodeView| integer_of(n.text);
    assert(traverse(none, read) == Some(Seq::<i32>::empty()));
    assert(numbers(inner) == traverse(seq![b], read));
    match integer_of(number) {
        Some(index) => {
            assert(traverse(seq![b], read) == Some(Seq::<i32>::empty().push(index)));
        },
        None => {
            assert(traverse(seq![b], read) is None);
        },
    }
}

/// None of Go's spellings is itself an IDL primitive: substituting for Go
/// twice is substituting once.
pub proof fn law_go_spells_once()
    ensures
        spells_once(go_types()),
{
    reveal_strlit("boolean");
    reveal_strlit("opaque");
    reveal_strlit("int");
    reveal_strlit("unsigned int");
    reveal_strlit("hyper");
    reveal_strlit("unsigned hyper");
    reveal_strlit("float");
    reveal_strlit("double");
    reveal_strlit("bool");
    reveal_strlit("byte");
    reveal_strlit("int32");
    reveal_strlit("uint32");
    reveal_strlit("int64");
    reveal_strlit("uint64");
    reveal_strlit("float32");
    reveal_strlit("float64");
    assert("boolean"@.len() == 7);
    assert("opaque"@.len() == 6);
    assert("int"@.len() == 3);
    assert("unsigned int"@.len() == 12);
    assert("hyper"@.len() == 5);
    assert("unsigned hyper"@.len() == 14);
    assert("float"@.len() == 5);
    assert("double"@.len() == 6);
    assert("bool"@.len() == 4);
    assert("byte"@.len() == 4);
    assert("int32"@.len() == 5);
    assert("uint32"@.len() == 6);
    assert("int64"@.len() == 5);
    assert("uint64"@.len() == 6);
    assert("float32"@.len() == 7);
    assert("float64"@.len() == 7);
    assert("int32"@[0] != "hyper"@[0]);
    assert("int32"@[0] != "float"@[0]);
    assert("uint32"@[0] != "opaque"@[0]);
    assert("uint32"@[0] != "double"@[0]);
    assert("int64"@[0] != "hyper"@[0]);
    assert("int64"@[0] != "float"@[0]);
    assert("uint64"@[0] != "opaque"@[0]);
    assert("uint64"@[0] != "double"@[0]);
    assert("float32"@[0] != "boolean"@[0]);
    assert("float64"@[0] != "boolean"@[0]);
}

/// None of Rust's spellings is itself an IDL primitive.
pub proof fn law_rust_spells_once()
    ensures
        spells_once(rust_types()),
{
    reveal_strlit("boolean");
    reveal_strlit("opaque");
    reveal_strlit("int");
    reveal_strlit("unsigned int");
    reveal_strlit("hyper");
    reveal_strlit("unsigned hyper");
    reveal_strlit("float");
    reveal_strlit("double");
    reveal_strlit("string");
    reveal_strlit("bool");
    reveal_strlit("u8");
    reveal_strlit("i32");
    reveal_strlit("u32");
    reveal_strlit("i64");
    reveal_strlit("u64");
    reveal_strlit("f32");
    reveal_strlit("f64");
    reveal_strlit("String");
    assert("boolean"@.len() == 7);
    assert("opaque"@.len() == 6);
    assert("int"@.len() == 3);
    assert("unsigned int"@.len() == 12);
    assert("hyper"@.len() == 5);
    assert("unsigned hyper"@.len() == 14);
    assert("float"@.len() == 5);
    assert("double"@.len() == 6);
    assert("string"@.len() == 6);
    assert("bool"@.len() == 4);
    assert("u8"@.len() == 2);
    assert("i32"@.len() == 3);
    assert("u32"@.len() == 3);
    assert("i64"@.len() == 3);
    assert("u64"@.len() == 3);
    assert("f32"@.len() == 3);
    assert("f64"@.len() == 3);
    assert("String"@.len() == 6);
    assert("i32"@[1] != "int"@[1]);
    assert("u32"@[0] != "int"@[0]);
    assert("i64"@[1] != "int"@[1]);
    assert("u64"@[0] != "int"@[0]);
    assert("f32"@[0] != "int"@[0]);
    assert("f64"@[0] != "int"@[0]);
    assert("String"@[0] != "opaque"@[0]);
    assert("String"@[0] != "double"@[0]);
    assert("String"@[0] != "string"@[0]);
}

/// None of JavaScript's spellings is itself an IDL primitive.
pub proof fn law_js_spells_once()
    ensures
        spells_once(js_types()),
{
    reveal_strlit("boolean");
    reveal_strlit("int");
    reveal_strlit("unsigned int");
    reveal_strlit("unsigned hyper");
    reveal_strlit("hyper");
    reveal_strlit("string");
    reveal_strlit("float");
    reveal_strlit("double");
    reveal_strlit("void");
    reveal_strlit("Bool");
    reveal_strlit("Int");
    reveal_strlit("UInt");
    reveal_strlit("UHyper");
    reveal_strlit("Hyper");
    reveal_strlit("Str");
    reveal_strlit("Float");
    reveal_strlit("Double");
    reveal_strlit("Void");
    assert("boolean"@.len() == 7);
    assert("int"@.len() == 3);
    assert("unsigned int"@.len() == 12);
    assert("unsigned hyper"@.len() == 14);
    assert("hyper"@.len() == 5);
    assert("string"@.len() == 6);
    assert("float"@.len() == 5);
    assert("double"@.len() == 6);
    assert("void"@.len() == 4);
    assert("Bool"@.len() == 4);
    assert("Int"@.len() == 3);
    assert("UInt"@.len() == 4);
    assert("UHyper"@.len() == 6);
    assert("Hyper"@.len() == 5);
    assert("Str"@.len() == 3);
    assert("Float"@.len() == 5);
    assert("Double"@.len() == 6);
    assert("Void"@.len() == 4);
    assert("Bool"@[0] != "void"@[0]);
    assert("Int"@[0] != "int"@[0]);
    assert("UInt"@[0] != "void"@[0]);
    assert("UHyper"@[0] != "string"@[0]);
    assert("UHyper"@[0] != "double"@[0]);
    assert("Hyper"@[0] != "hyper"@[0]);
    assert("Hyper"@[0] != "float"@[0]);
    assert("Str"@[0] != "int"@[0]);
    assert("Float"@[0] != "hyper"@[0]);
    assert("Float"@[0] != "float"@[0]);
    assert("Double"@[0] != "string"@[0]);
    assert("Double"@[0] != "double"@[0]);
    assert("Void"@[0] != "void"@[0]);
}

/// Whether every occurrence in a namespace is well formed.
pub open spec fn all_well_formed(ns: NamespaceView) -> bool {
    &&& forall|i: int| 0 <= i < ns.typedefs.len() ==> (#[trigger] ns.typedefs[i]).def.well_formed()
    &&& forall|i: int, j: int|
        0 <= i < ns.structs.len() && 0 <= j < ns.structs[i].props.len() ==> (
        #[trigger] ns.structs[i].props[j]).well_formed()
    &&& forall|i: int, j: int|
        0 <= i < ns.unions.len() && 0 <= j < ns.unions[i].switch.cases.len() ==> (
        #[trigger] ns.unions[i].switch.cases[j]).ret_type.well_formed()
}

/// The occurrences among a list of type declarations are well formed.
proof fn lemma_defs_well_formed(nodes: Seq<NodeView>)
    ensures
        defs(nodes) matches Some(found) ==> forall|k: int|
            0 <= k < found.len() ==> (#[trigger] found[k]).well_formed(),
{
    let decls = select(nodes, set![Rule::TypeDecl]);
    lemma_traverse_items(decls, |n: NodeView| def_of(n));
    if let Some(found) = defs(nodes) {
        assert forall|k: int| 0 <= k < found.len() implies (#[trigger] found[k]).well_formed() by {
            assert(def_of(decls[k]) == Some(found[k]));
            law_built_def_well_formed(decls[k]);
        }
    }
}

/// Every occurrence in a namespace that the builder makes is well formed.
pub proof fn law_built_namespace_well_formed(node: NodeView)
    ensures
        namespace_of(node) matches Some(ns) ==> all_well_formed(ns),
{
    if let Some(ns) = namespace_of(node) {
        let typedef_nodes = select(node.inner, set![Rule::Typedef]);
        lemma_traverse_items(typedef_nodes, |n: NodeView| typedef_of(n));
        assert forall|i: int| 0 <= i < ns.typedefs.len() implies (
        #[trigger] ns.typedefs[i]).def.well_formed() by {
            assert(typedef_of(typedef_nodes[i]) == Some(ns.typedefs[i]));
            lemma_defs_well_formed(typedef_nodes[i].inner);
        }
        let struct_nodes = select(node.inner, set![Rule::Struct]);
        lemma_traverse_items(struct_nodes, |n: NodeView| struct_of(n));
        assert forall|i: int, j: int|
            0 <= i < ns.structs.len() && 0 <= j < ns.structs[i].props.len() implies (
        #[trigger] ns.structs[i].props[j]).well_formed() by {
            assert(struct_of(struct_nodes[i]) == Some(ns.structs[i]));
            lemma_defs_well_formed(struct_nodes[i].inner);
        }
        let union_nodes = select(node.inner, set![Rule::Union]);
        lemma_traverse_items(union_nodes, |n: NodeView| union_of(n));
        assert forall|i: int, j: int|
            0 <= i < ns.unions.len() && 0 <= j < ns.unions[i].switch.cases.len() implies (
        #[trigger] ns.unions[i].switch.cases[j]).ret_type.well_formed() by {
            assert(union_of(union_nodes[i]) == Some(ns.unions[i]));
            let switch_nodes = select(union_nodes[i].inner, set![Rule::Switch]);
            lemma_traverse_items(switch_nodes, |n: NodeView| switch_of(n));
            if switch_nodes.len() > 0 {
                let last = switch_nodes.len() - 1;
                assert(switch_of(switch_nodes[last]) == Some(ns.unions[i].switch));
                let case_nodes = select(switch_nodes[last].inner, set![Rule::CaseStatement]);
                lemma_traverse_items(case_nodes, |n: NodeView| case_of(n));
                assert(case_of(case_nodes[j]) == Some(ns.unions[i].switch.cases[j]));
                lemma_defs_well_formed(case_nodes[j].inner);
            }
        }
    }
}

/// A list of fields has one column for each field.
pub proof fn lemma_column_per_field(
    props: Seq<DefView>,
    structs: Map<Seq<char>, StructView>,
    typedefs: Map<Seq<char>, DefView>,
    available: Set<Seq<char>>,
)
    requires
        available.finite(),
    ensures
        columns_of(props, structs, typedefs, available) matches Ok(columns) ==> columns.len()
            == props.len(),
    decreases props.len(),
{
    if props.len() > 0 {
        lemma_column_per_field(props.drop_last(), structs, typedefs, available);
    }
}

/// A field of a struct type that has no dimension has a struct column
/// under the field's own name, with one child for each field of the
/// struct, in their order.
pub proof fn law_struct_column(
    def: DefView,
    structs: Map<Seq<char>, StructView>,
    typedefs: Map<Seq<char>, DefView>,
)
    requires
        structs.dom().finite(),
        typedefs.dom().finite(),
        structs.contains_key(def.type_id),
        !typedefs.contains_key(def.type_id),
        def.array_size == 0,
    ensures
        flatten(def, structs, typedefs) matches Ok(column) ==> {
            &&& column is Struct
            &&& column->Struct_name == def.name
            &&& column->children.len() == structs[def.type_id].props.len()
        },
{
    let all = structs.dom().union(typedefs.dom());
    lemma_column_per_field(
        structs[def.type_id].props,
        structs,
        typedefs,
        all.remove(def.type_id),
    );
}

/// An array of a struct is an array column around the struct column: the
/// dimension of a field of a struct type is a layer of its own, with the
/// fixedness and the length that the field has.
pub proof fn law_array_of_struct(
    def: DefView,
    structs: Map<Seq<char>, StructView>,
    typedefs: Map<Seq<char>, DefView>,
)
    requires
        structs.dom().finite(),
        typedefs.dom().finite(),
        structs.contains_key(def.type_id),
        !typedefs.contains_key(def.type_id),
        def.array_size != 0,
    ensures
        flatten(def, structs, typedefs) == match flatten(def.element(), structs, typedefs) {
            Ok(inner) => Ok(
                ColumnView::Array {
                    name: def.name,
                    fixed: def.fixed_array,
                    length: def.array_size as u32,
                    child: Box::new(inner),
                },
            ),
            Err(e) => Err(e),
        },
        flatten(def.element(), structs, typedefs) matches Ok(inner) ==> inner is Struct,
{
    law_struct_column(def.element(), structs, typedefs);
}

/// A field whose type is an alias of an array of a struct has three
/// layers above the leaves: a typedef column under the field's name, in
/// it an array column with the fixedness and the length of the alias, and
/// in that a struct column with the struct's own flattened fields.
pub proof fn law_alias_of_array_of_struct(
    def: DefView,
    structs: Map<Seq<char>, StructView>,
    typedefs: Map<Seq<char>, DefView>,
)
    requires
        structs.dom().finite(),
        typedefs.dom().finite(),
        def.array_size == 0,
        typedefs.contains_key(def.type_id),
        typedefs[def.type_id].array_size != 0,
        structs.contains_key(typedefs[def.type_id].type_id),
        !typedefs.contains_key(typedefs[def.type_id].type_id),
    ensures
        ({
            let alias = typedefs[def.type_id];
            let fields = columns_of(
                structs[alias.type_id].props,
                structs,
                typedefs,
                structs.dom().union(typedefs.dom()).remove(def.type_id).remove(alias.type_id),
            );
            flatten(def, structs, typedefs) == match fields {
                Ok(children) => Ok(
                    ColumnView::Typedef {
                        name: def.name,
                        child: Box::new(
                            ColumnView::Array {
                                name: alias.name,
                                fixed: alias.fixed_array,
                                length: alias.array_size as u32,
                                child: Box::new(
                                    ColumnView::Struct { name: alias.name, children },
                                ),
                            },
                        ),
                    },
                ),
                Err(e) => Err(e),
            }
        }),
{
    let alias = typedefs[def.type_id];
    let all = structs.dom().union(typedefs.dom());
    let inside = all.remove(def.type_id);
    assert(all.contains(def.type_id));
    assert(inside.contains(alias.type_id));
    let innermost = column_of(alias.element(), structs, typedefs, inside);
    let middle = column_of(alias, structs, typedefs, inside);
    assert(middle == match innermost {
        Ok(inner) => Ok::<ColumnView, Error>(
            ColumnView::Array {
                name: alias.name,
                fixed: alias.fixed_array,
                length: alias.array_size as u32,
                child: Box::new(inner),
            },
        ),
        Err(e) => Err(e),
    });
}

/// The structs of two lists of namespaces in a row are those of the one
/// and then those of the other.
proof fn lemma_declared_structs_add(a: Seq<NamespaceView>, b: Seq<NamespaceView>)
    ensures
        declared_structs(a + b) == declared_structs(a) + declared_structs(b),
    decreases b.len(),
{
    if b.len() == 0 {
        assert(a + b == a);
        assert(declared_structs(a) + declared_structs(b) == declared_structs(a));
    } else {
        assert((a + b).drop_last() == a + b.drop_last());
        assert((a + b).last() == b.last());
        lemma_declared_structs_add(a, b.drop_last());
        assert(declared_structs(a) + (declared_structs(b.drop_last()) + b.last().structs) == (
        declared_structs(a) + declared_structs(b.drop_last())) + b.last().structs);
    }
}

/// The occurrences of a list of typedefs.
pub open spec fn aliases(typedefs: Seq<TypedefView>) -> Seq<DefView> {
    typedefs.map_values(|t: TypedefView| t.def)
}

proof fn lemma_declared_typedefs_add(a: Seq<NamespaceView>, b: Seq<NamespaceView>)
    ensures
        declared_typedefs(a + b) == declared_typedefs(a) + declared_typedefs(b),
    decreases b.len(),
{
    if b.len() == 0 {
        assert(a + b == a);
        assert(declared_typedefs(a) + declared_typedefs(b) == declared_typedefs(a));
    } else {
        assert((a + b).drop_last() == a + b.drop_last());
        assert((a + b).last() == b.last());
        lemma_declared_typedefs_add(a, b.drop_last());
        assert(declared_typedefs(a) + (declared_typedefs(b.drop_last()) + aliases(
            b.last().typedefs,
        )) == (declared_typedefs(a) + declared_typedefs(b.drop_last())) + aliases(
            b.last().typedefs,
        ));
    }
}

/// What a single namespace declares.
proof fn lemma_declared_by_one(ns: NamespaceView)
    ensures
        declared_structs(seq![ns]) == ns.structs,
        declared_typedefs(seq![ns]) == aliases(ns.typedefs),
{
    let one = seq![ns];
    assert(one.drop_last() == Seq::<NamespaceView>::empty());
    assert(one.last() == ns);
    assert(declared_structs(one.drop_last()) == Seq::<StructView>::empty());
    assert(declared_typedefs(one.drop_last()) == Seq::<DefView>::empty());
    assert(Seq::<StructView>::empty() + ns.structs == ns.structs);
    assert(Seq::<DefView>::empty() + aliases(ns.typedefs) == aliases(ns.typedefs));
}

/// The marked among two lists in a row are those of the one and then
/// those of the other.
proof fn lemma_marked_add(a: Seq<StructView>, b: Seq<StructView>, names: Seq<Seq<char>>)
    ensures
        marked(a + b, names) == marked(a, names) + marked(b, names),
    decreases b.len(),
{
    if b.len() == 0 {
        assert(a + b == a);
        assert(marked(a, names) + marked(b, names) == marked(a, names));
    } else {
        assert((a + b).drop_last() == a + b.drop_last());
        assert((a + b).last() == b.last());
        lemma_marked_add(a, b.drop_last(), names);
        if text_among(names, b.last().name) {
            assert(marked(a, names) + marked(b.drop_last(), names).push(b.last()) == (marked(
                a,
                names,
            ) + marked(b.drop_last(), names)).push(b.last()));
        }
    }
}

/// Two typedefs of different names can change places in a source: the
/// schema of the source is the same, whatever is marked as a table.
pub proof fn law_schema_ignores_typedef_order(
    before: Seq<NamespaceView>,
    ns: NamespaceView,
    after: Seq<NamespaceView>,
    front: Seq<TypedefView>,
    x: TypedefView,
    y: TypedefView,
    back: Seq<TypedefView>,
    tables: Seq<Seq<char>>,
)
    requires
        ns.typedefs == front + seq![x, y] + back,
        x.def.name != y.def.name,
    ensures
        schema_for(before + seq![ns] + after, tables) == schema_for(
            before + seq![NamespaceView { typedefs: front + seq![y, x] + back, ..ns }] + after,
            tables,
        ),
{
    let other = NamespaceView { typedefs: front + seq![y, x] + back, ..ns };
    let first = before + seq![ns] + after;
    let second = before + seq![other] + after;
    lemma_declared_structs_add(before + seq![ns], after);
    lemma_declared_structs_add(before, seq![ns]);
    lemma_declared_structs_add(before + seq![other], after);
    lemma_declared_structs_add(before, seq![other]);
    lemma_declared_typedefs_add(before + seq![ns], after);
    lemma_declared_typedefs_add(before, seq![ns]);
    lemma_declared_typedefs_add(before + seq![other], after);
    lemma_declared_typedefs_add(before, seq![other]);
    lemma_declared_by_one(ns);
    lemma_declared_by_one(other);
    assert(declared_structs(first) == declared_structs(second));
    let head = declared_typedefs(before) + aliases(front);
    let tail = aliases(back) + declared_typedefs(after);
    assert(aliases(ns.typedefs) == aliases(front) + seq![x.def, y.def] + aliases(back));
    assert(aliases(other.typedefs) == aliases(front) + seq![y.def, x.def] + aliases(back));
    assert(declared_typedefs(first) == head + seq![x.def, y.def] + tail);
    assert(declared_typedefs(second) == head + seq![y.def, x.def] + tail);
    law_typedefs_change_places(head, x.def, y.def, tail);
}

/// Two structs of different names can change places in a source: every
/// field flattens to the same column and every struct to the same table.
/// The tables of a schema stand in declaration order, so the schema is the
/// same where the two are not both marked.
pub proof fn law_schema_ignores_struct_order(
    before: Seq<NamespaceView>,
    ns: NamespaceView,
    after: Seq<NamespaceView>,
    front: Seq<StructView>,
    x: StructView,
    y: StructView,
    back: Seq<StructView>,
    def: DefView,
    table: StructView,
    tables: Seq<Seq<char>>,
)
    requires
        ns.structs == front + seq![x, y] + back,
        x.name != y.name,
    ensures
        ({
            let first = before + seq![ns] + after;
            let second = before + seq![NamespaceView { structs: front + seq![y, x] + back, ..ns }]
                + after;
            let first_structs = structs_by_name(declared_structs(first));
            let second_structs = structs_by_name(declared_structs(second));
            let first_typedefs = typedefs_by_name(declared_typedefs(first));
            let second_typedefs = typedefs_by_name(declared_typedefs(second));
            &&& flatten(def, first_structs, first_typedefs) == flatten(
                def,
                second_structs,
                second_typedefs,
            )
            &&& table_of(table, first_structs, first_typedefs) == table_of(
                table,
                second_structs,
                second_typedefs,
            )
            &&& !(text_among(tables, x.name) && text_among(tables, y.name)) ==> schema_for(
                first,
                tables,
            ) == schema_for(second, tables)
        }),
{
    let other = NamespaceView { structs: front + seq![y, x] + back, ..ns };
    let first = before + seq![ns] + after;
    let second = before + seq![other] + after;
    lemma_declared_structs_add(before + seq![ns], after);
    lemma_declared_structs_add(before, seq![ns]);
    lemma_declared_structs_add(before + seq![other], after);
    lemma_declared_structs_add(before, seq![other]);
    lemma_declared_typedefs_add(before + seq![ns], after);
    lemma_declared_typedefs_add(before, seq![ns]);
    lemma_declared_typedefs_add(before + seq![other], after);
    lemma_declared_typedefs_add(before, seq![other]);
    lemma_declared_by_one(ns);
    lemma_declared_by_one(other);
    assert(declared_typedefs(first) == declared_typedefs(second));
    let head = declared_structs(before) + front;
    let tail = back + declared_structs(after);
    assert(declared_structs(first) == head + seq![x, y] + tail);
    assert(declared_structs(second) == head + seq![y, x] + tail);
    law_structs_change_places(head, x, y, tail);
    if !(text_among(tables, x.name) && text_among(tables, y.name)) {
        lemma_marked_add(head + seq![x, y], tail, tables);
        lemma_marked_add(head, seq![x, y], tables);
        lemma_marked_add(head + seq![y, x], tail, tables);
        lemma_marked_add(head, seq![y, x], tables);
        let none = Seq::<StructView>::empty();
        assert(marked(none, tables) == none);
        assert(seq![x, y].drop_last() == seq![x] && seq![x, y].last() == y);
        assert(seq![y, x].drop_last() == seq![y] && seq![y, x].last() == x);
        assert(seq![x].drop_last() == none && seq![x].last() == x);
        assert(seq![y].drop_last() == none && seq![y].last() == y);
        assert(none.push(x) == seq![x] && none.push(y) == seq![y]);
        assert(marked(seq![x], tables) == if text_among(tables, x.name) {
            seq![x]
        } else {
            none
        });
        assert(marked(seq![y], tables) == if text_among(tables, y.name) {
            seq![y]
        } else {
            none
        });
        assert(marked(seq![x, y], tables) == marked(seq![y, x], tables));
    }
}

} // verus!
