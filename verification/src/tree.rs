//! The parse tree: what the grammar makes of a source text before any
//! declaration is built from it.

use crate::ast::views;
use vstd::prelude::*;

verus! {

/// The grammar rule that a node was matched by.
#[derive(Clone, Copy, Debug, PartialEq, Eq, Structural)]
pub enum Rule {
    /// A whole source: namespaces.
    File,
    /// `namespace name { declarations }`.
    Namespace,
    /// The keyword, name and opening brace of a block.
    BracketStart,
    /// A name.
    Identifier,
    /// The name of a primitive.
    Types,
    /// A type with an optional dimension and an optional field name.
    TypeDecl,
    /// The dimension of a type declaration.
    ArrayDef,
    /// `<>` or `<n>`.
    VarArray,
    /// `[n]`.
    FixedArray,
    /// `typedef declaration ;`.
    Typedef,
    /// `struct name { fields }`.
    Struct,
    /// `enum name { members }`.
    Enum,
    /// `name = number`.
    EnumDecl,
    /// An integer literal.
    Number,
    /// `union name switch`.
    Union,
    /// `switch ( parameter ) { cases }`.
    Switch,
    /// The discriminant of a switch: its type and its name.
    SingleParam,
    /// `case literal : declaration ;` or `case literal : void ;`.
    CaseStatement,
}

/// A node of the parse tree. `text` is the source text of a token; a node
/// that has children carries none of its own.
#[derive(Debug, PartialEq, Eq)]
pub struct Node {
    pub rule: Rule,
    pub text: String,
    pub inner: Vec<Node>,
}

/// The view of a `Node`.
pub struct NodeView {
    pub rule: Rule,
    pub text: Seq<char>,
    pub inner: Seq<NodeView>,
}

/// The view of a node: the same tree over `Seq`.
pub open spec fn node_view(n: Node) -> NodeView
    decreases n,
{
    NodeView {
        rule: n.rule,
        text: n.text@,
        inner: Seq::new(
            n.inner@.len(),
            |i: int|
                if 0 <= i < n.inner@.len() {
                    node_view(n.inner@[i])
                } else {
                    arbitrary()
                },
        ),
    }
}

impl View for Node {
    type V = NodeView;

    open spec fn view(&self) -> NodeView {
        node_view(*self)
    }
}

impl Node {
    /// A token: a node without children.
    pub fn token(rule: Rule, text: String) -> (r: Node)
        ensures
            r@ == (NodeView { rule, text: text@, inner: Seq::empty() }),
    {
        let r = Node { rule, text, inner: Vec::new() };
        proof {
            assert(r@.inner == Seq::<NodeView>::empty());
        }
        r
    }

    /// How many children the node has.
    pub fn len(&self) -> (r: usize)
        ensures
            r == self@.inner.len(),
    {
        self.inner.len()
    }

    /// The child at `i`.
    pub fn child(&self, i: usize) -> (r: &Node)
        requires
            i < self@.inner.len(),
        ensures
            r@ == self@.inner[i as int],
            r.rule == self@.inner[i as int].rule,
            r.text@ == self@.inner[i as int].text,
    {
        &self.inner[i]
    }

    /// A node with the given children and no text of its own.
    pub fn branch(rule: Rule, inner: Vec<Node>) -> (r: Node)
        ensures
            r@ == (NodeView { rule, text: Seq::empty(), inner: views(inner@) }),
    {
        let r = Node { rule, text: String::new(), inner };
        proof {
            assert(r@.inner == views(inner@));
        }
        r
    }
}

/// The nodes whose rule is among `rules`, in the order they stand in.
pub open spec fn select(nodes: Seq<NodeView>, rules: Set<Rule>) -> Seq<NodeView>
    decreases nodes.len(),
{
    if nodes.len() == 0 {
        Seq::empty()
    } else if rules.contains(nodes.last().rule) {
        select(nodes.drop_last(), rules).push(nodes.last())
    } else {
        select(nodes.drop_last(), rules)
    }
}

/// What `f` makes of each node, in order; nothing if it fails on one.
pub open spec fn traverse<T>(nodes: Seq<NodeView>, f: spec_fn(NodeView) -> Option<T>) -> Option<
    Seq<T>,
>
    decreases nodes.len(),
{
    if nodes.len() == 0 {
        Some(Seq::empty())
    } else {
        match (traverse(nodes.drop_last(), f), f(nodes.last())) {
            (Some(before), Some(item)) => Some(before.push(item)),
            _ => None,
        }
    }
}

/// The last of `items`, or `default` where there is none.
pub open spec fn last_or<T>(items: Seq<T>, default: T) -> T {
    if items.len() == 0 {
        default
    } else {
        items.last()
    }
}

/// Selecting from two lists in a row is selecting from each.
pub proof fn lemma_select_add(a: Seq<NodeView>, b: Seq<NodeView>, rules: Set<Rule>)
    ensures
        select(a + b, rules) == select(a, rules) + select(b, rules),
    decreases b.len(),
{
    if b.len() == 0 {
        assert(a + b == a);
        assert(select(a, rules) + select(b, rules) == select(a, rules));
    } else {
        assert((a + b).drop_last() == a + b.drop_last());
        assert((a + b).last() == b.last());
        lemma_select_add(a, b.drop_last(), rules);
        if rules.contains(b.last().rule) {
            assert(select(a, rules) + select(b.drop_last(), rules).push(b.last()) == (select(
                a,
                rules,
            ) + select(b.drop_last(), rules)).push(b.last()));
        }
    }
}

/// A node of the list that has one of the rules is among the selected.
pub proof fn lemma_select_has(nodes: Seq<NodeView>, rules: Set<Rule>, i: int)
    requires
        0 <= i < nodes.len(),
        rules.contains(nodes[i].rule),
    ensures
        select(nodes, rules).contains(nodes[i]),
    decreases nodes.len(),
{
    if i == nodes.len() - 1 {
        let s = select(nodes, rules);
        assert(s[s.len() - 1] == nodes[i]);
    } else {
        lemma_select_has(nodes.drop_last(), rules, i);
        let before = select(nodes.drop_last(), rules);
        let k = choose|k: int| 0 <= k < before.len() && before[k] == nodes[i];
        assert(select(nodes, rules)[k] == nodes[i]);
    }
}

/// Where `f` fails on one node of the list, it fails on the list.
pub proof fn lemma_traverse_fails<T>(
    nodes: Seq<NodeView>,
    f: spec_fn(NodeView) -> Option<T>,
    i: int,
)
    requires
        0 <= i < nodes.len(),
        f(nodes[i]) is None,
    ensures
        traverse(nodes, f) is None,
    decreases nodes.len(),
{
    if i < nodes.len() - 1 {
        lemma_traverse_fails(nodes.drop_last(), f, i);
    }
}

/// Where `f` fails on a node that has one of the rules, it fails on the
/// selected.
pub proof fn lemma_selected_fails<T>(
    nodes: Seq<NodeView>,
    rules: Set<Rule>,
    f: spec_fn(NodeView) -> Option<T>,
    i: int,
)
    requires
        0 <= i < nodes.len(),
        rules.contains(nodes[i].rule),
        f(nodes[i]) is None,
    ensures
        traverse(select(nodes, rules), f) is None,
{
    lemma_select_has(nodes, rules, i);
    let s = select(nodes, rules);
    let k = choose|k: int| 0 <= k < s.len() && s[k] == nodes[i];
    lemma_traverse_fails(s, f, k);
}

} // verus!
