//! The parser: it matches a source against the grammar, rule by rule, and
//! returns the tree that the grammar gives.

use crate::ast::{views, Error};
use crate::grammar::{
    after_semicolon, array_at, case_at, cases_at, declaration_at, declarations_at, digits_end,
    enum_at, fields_at, header_at, is_primitive_word, is_space, is_word_char,
    lemma_word_end_bounds, member_at, members_at, name_at, name_starts, namespace_at,
    namespaces_at, number_at, param_at, parse_file, prepend, skip_space, struct_at, switch_at,
    symbol_at, type_at, type_decl_at, typedef_at, union_at, word_at, word_end,
};
use crate::text::{is_digit, same_text};
use crate::tree::{Node, NodeView, Rule};
use vstd::prelude::*;
use vstd::utf8::is_ascii_chars;

verus! {

/// Putting one item behind the items in front is putting it before the
/// rest.
pub proof fn lemma_prepend_push(
    items: Seq<NodeView>,
    item: NodeView,
    rest: Option<(Seq<NodeView>, int)>,
)
    ensures
        prepend(items, prepend(seq![item], rest)) == prepend(items.push(item), rest),
{
    match rest {
        Some((more, end)) => {
            assert(items + (seq![item] + more) == items.push(item) + more);
        },
        None => {},
    }
}

/// Whether a parser returned the node and the position that the grammar
/// gives.
pub open spec fn node_at(r: Option<(Node, usize)>, expected: Option<(NodeView, int)>) -> bool {
    match r {
        Some((node, end)) => expected == Some((node@, end as int)),
        None => expected is None,
    }
}

/// Whether a parser returned the nodes and the position that the grammar
/// gives.
pub open spec fn nodes_at(
    r: Option<(Vec<Node>, usize)>,
    expected: Option<(Seq<NodeView>, int)>,
) -> bool {
    match r {
        Some((nodes, end)) => expected == Some((views(nodes@), end as int)),
        None => expected is None,
    }
}

/// A source that is ASCII throughout, with its bytes at hand.
struct Source<'a> {
    text: &'a str,
    bytes: &'a [u8],
}

impl<'a> Source<'a> {
    /// The characters of the source.
    spec fn chars(&self) -> Seq<char> {
        self.text@
    }

    #[verifier::type_invariant]
    spec fn wf(&self) -> bool {
        &&& vstd::string::is_ascii(self.text)
        &&& self.bytes@.len() == self.text@.len()
        &&& forall|i: int| 0 <= i < self.text@.len() ==> self.bytes@[i] == self.text@[i] as u8
    }

    /// Takes a text as a source if it is ASCII.
    fn new(text: &'a str) -> (r: Option<Source<'a>>)
        ensures
            match r {
                Some(src) => is_ascii_chars(text@) && src.chars() == text@,
                None => !is_ascii_chars(text@),
            },
    {
        if text.is_ascii() {
            let bytes = text.as_bytes();
            proof {
                vstd::string::is_ascii_spec_bytes(text);
            }
            Some(Source { text, bytes })
        } else {
            None
        }
    }

    fn len(&self) -> (r: usize)
        ensures
            r == self.chars().len(),
    {
        proof {
            use_type_invariant(self);
        }
        self.bytes.len()
    }

    /// The character at `i`.
    fn at(&self, i: usize) -> (c: char)
        requires
            i < self.chars().len(),
        ensures
            c == self.chars()[i as int],
    {
        proof {
            use_type_invariant(self);
        }
        self.bytes[i] as char
    }

    /// Whether the character at `i` is `c`.
    fn has(&self, i: usize, c: char) -> (r: bool)
        ensures
            r == symbol_at(self.chars(), i as int, c),
            r ==> i < self.chars().len() <= usize::MAX,
    {
        i < self.len() && self.at(i) == c
    }

    /// The text from `from` up to `to`.
    fn slice(&self, from: usize, to: usize) -> (r: &'a str)
        requires
            from <= to <= self.chars().len(),
        ensures
            r@ == self.chars().subrange(from as int, to as int),
    {
        proof {
            use_type_invariant(self);
        }
        self.text.substring_ascii(from, to)
    }

    /// The text from `from` up to `to`, as a string of its own.
    fn owned(&self, from: usize, to: usize) -> (r: String)
        requires
            from <= to <= self.chars().len(),
        ensures
            r@ == self.chars().subrange(from as int, to as int),
    {
        self.slice(from, to).to_owned()
    }

    /// Whether the word that starts at `i` and ends at `end` is `word`.
    fn word_is(&self, i: usize, end: usize, word: &str) -> (r: bool)
        requires
            i <= self.chars().len(),
            end == word_end(self.chars(), i as int),
        ensures
            r == (word_at(self.chars(), i as int) == word@),
    {
        proof {
            lemma_word_end_bounds(self.chars(), i as int);
        }
        same_text(self.slice(i, end), word)
    }
}

fn space(c: char) -> (r: bool)
    ensures
        r == is_space(c),
{
    c == ' ' || c == '\t' || c == '\n' || c == '\r'
}

fn digit(c: char) -> (r: bool)
    ensures
        r == is_digit(c),
{
    '0' <= c && c <= '9'
}

fn word_char(c: char) -> (r: bool)
    ensures
        r == is_word_char(c),
{
    ('a' <= c && c <= 'z') || ('A' <= c && c <= 'Z') || digit(c) || c == '_'
}

fn skip(src: &Source, i: usize) -> (r: usize)
    requires
        i <= src.chars().len(),
    ensures
        r == skip_space(src.chars(), i as int),
        i <= r <= src.chars().len(),
{
    let mut k: usize = i;
    while k < src.len() && space(src.at(k))
        invariant
            i <= k <= src.chars().len(),
            skip_space(src.chars(), i as int) == skip_space(src.chars(), k as int),
        decreases src.chars().len() - k,
    {
        k = k + 1;
    }
    k
}

fn end_of_word(src: &Source, i: usize) -> (r: usize)
    requires
        i <= src.chars().len(),
    ensures
        r == word_end(src.chars(), i as int),
        i <= r <= src.chars().len(),
{
    let mut k: usize = i;
    while k < src.len() && word_char(src.at(k))
        invariant
            i <= k <= src.chars().len(),
            word_end(src.chars(), i as int) == word_end(src.chars(), k as int),
        decreases src.chars().len() - k,
    {
        k = k + 1;
    }
    k
}

fn end_of_digits(src: &Source, i: usize) -> (r: usize)
    requires
        i <= src.chars().len(),
    ensures
        r == digits_end(src.chars(), i as int),
        i <= r <= src.chars().len(),
{
    let mut k: usize = i;
    while k < src.len() && digit(src.at(k))
        invariant
            i <= k <= src.chars().len(),
            digits_end(src.chars(), i as int) == digits_end(src.chars(), k as int),
        decreases src.chars().len() - k,
    {
        k = k + 1;
    }
    k
}

fn starts_name(src: &Source, i: usize) -> (r: bool)
    ensures
        r == name_starts(src.chars(), i as int),
{
    i < src.len() && word_char(src.at(i)) && !digit(src.at(i))
}

fn parse_name(src: &Source, i: usize) -> (r: Option<(Node, usize)>)
    requires
        i <= src.chars().len(),
    ensures
        node_at(r, name_at(src.chars(), i as int)),
        r is Some ==> i < r.unwrap().1 <= src.chars().len(),
{
    if starts_name(src, i) {
        let e = end_of_word(src, i);
        proof {
            lemma_word_end_bounds(src.chars(), i as int);
        }
        Some((Node::token(Rule::Identifier, src.owned(i, e)), e))
    } else {
        None
    }
}

fn primitive_word(word: &str) -> (r: bool)
    ensures
        r == is_primitive_word(word@),
{
    same_text(word, "int") || same_text(word, "hyper") || same_text(word, "float") || same_text(
        word,
        "double",
    ) || same_text(word, "boolean") || same_text(word, "string") || same_text(word, "opaque")
}

fn parse_type(src: &Source, i: usize) -> (r: Option<(Node, usize)>)
    requires
        i <= src.chars().len(),
    ensures
        node_at(r, type_at(src.chars(), i as int)),
        r is Some ==> i < r.unwrap().1 <= src.chars().len(),
{
    if !starts_name(src, i) {
        return None;
    }
    let e = end_of_word(src, i);
    proof {
        lemma_word_end_bounds(src.chars(), i as int);
    }
    if src.word_is(i, e, "unsigned") && src.has(e, ' ') {
        let e2 = end_of_word(src, e + 1);
        if src.word_is(e + 1, e2, "int") || src.word_is(e + 1, e2, "hyper") {
            return Some((Node::token(Rule::Types, src.owned(i, e2)), e2));
        }
    }
    if primitive_word(src.slice(i, e)) {
        Some((Node::token(Rule::Types, src.owned(i, e)), e))
    } else {
        Some((Node::token(Rule::Identifier, src.owned(i, e)), e))
    }
}

fn parse_number(src: &Source, i: usize) -> (r: Option<(Node, usize)>)
    requires
        i <= src.chars().len(),
    ensures
        node_at(r, number_at(src.chars(), i as int)),
        r is Some ==> i < r.unwrap().1 <= src.chars().len(),
{
    let from = if src.has(i, '-') {
        i + 1
    } else {
        i
    };
    let e = end_of_digits(src, from);
    if from < e {
        Some((Node::token(Rule::Number, src.owned(i, e)), e))
    } else {
        None
    }
}

fn one(a: Node) -> (v: Vec<Node>)
    ensures
        views(v@) == seq![a@],
{
    let mut v: Vec<Node> = Vec::new();
    v.push(a);
    proof {
        assert(views(v@) == seq![a@]);
    }
    v
}

fn two(a: Node, b: Node) -> (v: Vec<Node>)
    ensures
        views(v@) == seq![a@, b@],
{
    let mut v: Vec<Node> = Vec::new();
    v.push(a);
    v.push(b);
    proof {
        assert(views(v@) == seq![a@, b@]);
    }
    v
}

fn three(a: Node, b: Node, c: Node) -> (v: Vec<Node>)
    ensures
        views(v@) == seq![a@, b@, c@],
{
    let mut v: Vec<Node> = Vec::new();
    v.push(a);
    v.push(b);
    v.push(c);
    proof {
        assert(views(v@) == seq![a@, b@, c@]);
    }
    v
}

fn parse_array(src: &Source, i: usize) -> (r: Option<(Node, usize)>)
    requires
        i <= src.chars().len(),
    ensures
        node_at(r, array_at(src.chars(), i as int)),
        r is Some ==> i < r.unwrap().1 <= src.chars().len(),
{
    if i >= src.len() {
        return None;
    }
    let e = end_of_digits(src, i + 1);
    if src.has(i, '<') && src.has(e, '>') {
        let token = Node::token(Rule::VarArray, src.owned(i, e + 1));
        Some((Node::branch(Rule::ArrayDef, one(token)), e + 1))
    } else if src.has(i, '[') && i + 1 < e && src.has(e, ']') {
        let token = Node::token(Rule::FixedArray, src.owned(i, e + 1));
        Some((Node::branch(Rule::ArrayDef, one(token)), e + 1))
    } else {
        None
    }
}

fn parse_type_decl(src: &Source, i: usize) -> (r: Option<(Node, usize)>)
    requires
        i <= src.chars().len(),
    ensures
        node_at(r, type_decl_at(src.chars(), i as int)),
        r is Some ==> i < r.unwrap().1 <= src.chars().len(),
{
    match parse_type(src, i) {
        None => None,
        Some((ty, e1)) => {
            let j = skip(src, e1);
            match parse_array(src, j) {
                Some((array, e2)) => match parse_name(src, skip(src, e2)) {
                    Some((name, e3)) => Some(
                        (Node::branch(Rule::TypeDecl, three(ty, array, name)), e3),
                    ),
                    None => Some((Node::branch(Rule::TypeDecl, two(ty, array)), e2)),
                },
                None => match parse_name(src, j) {
                    Some((name, e2)) => match parse_array(src, skip(src, e2)) {
                        Some((array, e3)) => Some(
                            (Node::branch(Rule::TypeDecl, three(ty, name, array)), e3),
                        ),
                        None => Some((Node::branch(Rule::TypeDecl, two(ty, name)), e2)),
                    },
                    None => Some((Node::branch(Rule::TypeDecl, one(ty)), e1)),
                },
            }
        },
    }
}

fn parse_header(src: &Source, i: usize, keyword: &str) -> (r: Option<(Node, usize)>)
    requires
        i <= src.chars().len(),
    ensures
        node_at(r, header_at(src.chars(), i as int, keyword@)),
        r is Some ==> i < r.unwrap().1 <= src.chars().len(),
{
    let e0 = end_of_word(src, i);
    if !src.word_is(i, e0, keyword) {
        return None;
    }
    match parse_name(src, skip(src, e0)) {
        None => None,
        Some((name, e)) => {
            let k = skip(src, e);
            if src.has(k, '{') {
                Some((Node::branch(Rule::BracketStart, one(name)), k + 1))
            } else {
                None
            }
        },
    }
}

fn skip_semicolon(src: &Source, i: usize) -> (r: usize)
    requires
        i <= src.chars().len(),
    ensures
        r == after_semicolon(src.chars(), i as int),
        i <= r <= src.chars().len(),
{
    let k = skip(src, i);
    if src.has(k, ';') {
        k + 1
    } else {
        i
    }
}

fn parse_typedef(src: &Source, i: usize) -> (r: Option<(Node, usize)>)
    requires
        i <= src.chars().len(),
    ensures
        node_at(r, typedef_at(src.chars(), i as int)),
        r is Some ==> i < r.unwrap().1 <= src.chars().len(),
{
    let e0 = end_of_word(src, i);
    if !src.word_is(i, e0, "typedef") {
        return None;
    }
    match parse_type_decl(src, skip(src, e0)) {
        None => None,
        Some((decl, e)) => {
            let k = skip(src, e);
            if src.has(k, ';') {
                Some((Node::branch(Rule::Typedef, one(decl)), k + 1))
            } else {
                None
            }
        },
    }
}

#[verifier::loop_isolation(false)]
fn parse_fields(src: &Source, i: usize, front: Vec<Node>) -> (r: Option<(Vec<Node>, usize)>)
    requires
        i <= src.chars().len(),
    ensures
        nodes_at(r, prepend(views(front@), fields_at(src.chars(), i as int))),
        r is Some ==> i < r.unwrap().1 <= src.chars().len(),
{
    let ghost s = src.chars();
    let ghost wanted = prepend(views(front@), fields_at(s, i as int));
    let mut nodes = front;
    let mut at: usize = i;
    loop
        invariant
            s == src.chars(),
            i <= at <= s.len(),
            wanted == prepend(views(nodes@), fields_at(s, at as int)),
        decreases s.len() - at,
    {
        if src.has(at, '}') {
            proof {
                assert(views(nodes@) + Seq::<NodeView>::empty() == views(nodes@));
            }
            return Some((nodes, at + 1));
        }
        match parse_type_decl(src, at) {
            None => {
                return None;
            },
            Some((decl, e)) => {
                let k = skip(src, e);
                if !src.has(k, ';') {
                    return None;
                }
                proof {
                    lemma_prepend_push(
                        views(nodes@),
                        decl@,
                        fields_at(s, skip_space(s, k + 1)),
                    );
                    assert(views(nodes@.push(decl)) == views(nodes@).push(decl@));
                }
                nodes.push(decl);
                at = skip(src, k + 1);
            },
        }
    }
}

fn parse_struct(src: &Source, i: usize) -> (r: Option<(Node, usize)>)
    requires
        i <= src.chars().len(),
    ensures
        node_at(r, struct_at(src.chars(), i as int)),
        r is Some ==> i < r.unwrap().1 <= src.chars().len(),
{
    match parse_header(src, i, "struct") {
        None => None,
        Some((header, e)) => match parse_fields(src, skip(src, e), one(header)) {
            None => None,
            Some((nodes, end)) => Some((Node::branch(Rule::Struct, nodes), skip_semicolon(src, end))),
        },
    }
}

fn parse_member(src: &Source, i: usize) -> (r: Option<(Node, usize)>)
    requires
        i <= src.chars().len(),
    ensures
        node_at(r, member_at(src.chars(), i as int)),
        r is Some ==> i < r.unwrap().1 <= src.chars().len(),
{
    match parse_name(src, i) {
        None => None,
        Some((name, e)) => {
            let k = skip(src, e);
            if src.has(k, '=') {
                match parse_number(src, skip(src, k + 1)) {
                    Some((number, end)) => Some(
                        (Node::branch(Rule::EnumDecl, two(name, number)), end),
                    ),
                    None => None,
                }
            } else {
                None
            }
        },
    }
}

#[verifier::loop_isolation(false)]
fn parse_members(src: &Source, i: usize, front: Vec<Node>) -> (r: Option<(Vec<Node>, usize)>)
    requires
        i <= src.chars().len(),
    ensures
        nodes_at(r, prepend(views(front@), members_at(src.chars(), i as int))),
        r is Some ==> i < r.unwrap().1 <= src.chars().len(),
{
    let ghost s = src.chars();
    let ghost wanted = prepend(views(front@), members_at(s, i as int));
    let mut nodes = front;
    let mut at: usize = i;
    loop
        invariant
            s == src.chars(),
            i <= at <= s.len(),
            wanted == prepend(views(nodes@), members_at(s, at as int)),
        decreases s.len() - at,
    {
        match parse_member(src, at) {
            None => {
                return None;
            },
            Some((member, e)) => {
                let k = skip(src, e);
                proof {
                    assert(views(nodes@.push(member)) == views(nodes@).push(member@));
                }
                if src.has(k, ',') {
                    proof {
                        lemma_prepend_push(
                            views(nodes@),
                            member@,
                            members_at(s, skip_space(s, k + 1)),
                        );
                    }
                    nodes.push(member);
                    at = skip(src, k + 1);
                } else if src.has(k, '}') {
                    proof {
                        assert(views(nodes@) + seq![member@] == views(nodes@).push(member@));
                    }
                    nodes.push(member);
                    return Some((nodes, k + 1));
                } else {
                    return None;
                }
            },
        }
    }
}

fn parse_enum(src: &Source, i: usize) -> (r: Option<(Node, usize)>)
    requires
        i <= src.chars().len(),
    ensures
        node_at(r, enum_at(src.chars(), i as int)),
        r is Some ==> i < r.unwrap().1 <= src.chars().len(),
{
    match parse_header(src, i, "enum") {
        None => None,
        Some((header, e)) => {
            let j = skip(src, e);
            if src.has(j, '}') {
                Some((Node::branch(Rule::Enum, one(header)), skip_semicolon(src, j + 1)))
            } else {
                match parse_members(src, j, one(header)) {
                    None => None,
                    Some((nodes, end)) => Some(
                        (Node::branch(Rule::Enum, nodes), skip_semicolon(src, end)),
                    ),
                }
            }
        },
    }
}

fn parse_case(src: &Source, i: usize) -> (r: Option<(Node, usize)>)
    requires
        i <= src.chars().len(),
    ensures
        node_at(r, case_at(src.chars(), i as int)),
        r is Some ==> i < r.unwrap().1 <= src.chars().len(),
{
    let e0 = end_of_word(src, i);
    if !src.word_is(i, e0, "case") {
        return None;
    }
    match parse_name(src, skip(src, e0)) {
        None => None,
        Some((value, e)) => {
            let k = skip(src, e);
            if !src.has(k, ':') {
                return None;
            }
            let m = skip(src, k + 1);
            let e1 = end_of_word(src, m);
            if src.word_is(m, e1, "void") {
                let p = skip(src, e1);
                if src.has(p, ';') {
                    Some((Node::branch(Rule::CaseStatement, one(value)), p + 1))
                } else {
                    None
                }
            } else {
                match parse_type_decl(src, m) {
                    None => None,
                    Some((decl, e2)) => {
                        let p = skip(src, e2);
                        if src.has(p, ';') {
                            Some((Node::branch(Rule::CaseStatement, two(value, decl)), p + 1))
                        } else {
                            None
                        }
                    },
                }
            }
        },
    }
}

#[verifier::loop_isolation(false)]
fn parse_cases(src: &Source, i: usize, front: Vec<Node>) -> (r: Option<(Vec<Node>, usize)>)
    requires
        i <= src.chars().len(),
    ensures
        nodes_at(r, prepend(views(front@), cases_at(src.chars(), i as int))),
        r is Some ==> i < r.unwrap().1 <= src.chars().len(),
{
    let ghost s = src.chars();
    let ghost wanted = prepend(views(front@), cases_at(s, i as int));
    let mut nodes = front;
    let mut at: usize = i;
    loop
        invariant
            s == src.chars(),
            i <= at <= s.len(),
            wanted == prepend(views(nodes@), cases_at(s, at as int)),
        decreases s.len() - at,
    {
        if src.has(at, '}') {
            proof {
                assert(views(nodes@) + Seq::<NodeView>::empty() == views(nodes@));
            }
            return Some((nodes, at + 1));
        }
        match parse_case(src, at) {
            None => {
                return None;
            },
            Some((arm, e)) => {
                proof {
                    lemma_prepend_push(views(nodes@), arm@, cases_at(s, skip_space(s, e as int)));
                    assert(views(nodes@.push(arm)) == views(nodes@).push(arm@));
                }
                nodes.push(arm);
                at = skip(src, e);
            },
        }
    }
}

fn parse_param(src: &Source, i: usize) -> (r: Option<(Node, usize)>)
    requires
        i <= src.chars().len(),
    ensures
        node_at(r, param_at(src.chars(), i as int)),
        r is Some ==> i < r.unwrap().1 <= src.chars().len(),
{
    match parse_name(src, i) {
        None => None,
        Some((ty, e)) => match parse_name(src, skip(src, e)) {
            None => None,
            Some((name, end)) => Some((Node::branch(Rule::SingleParam, two(ty, name)), end)),
        },
    }
}

fn parse_switch(src: &Source, i: usize) -> (r: Option<(Node, usize)>)
    requires
        i <= src.chars().len(),
    ensures
        node_at(r, switch_at(src.chars(), i as int)),
        r is Some ==> i < r.unwrap().1 <= src.chars().len(),
{
    let e0 = end_of_word(src, i);
    let j = skip(src, e0);
    if !src.word_is(i, e0, "switch") || !src.has(j, '(') {
        return None;
    }
    match parse_param(src, skip(src, j + 1)) {
        None => None,
        Some((param, e)) => {
            let m = skip(src, e);
            if !src.has(m, ')') {
                return None;
            }
            let q = skip(src, m + 1);
            if !src.has(q, '{') {
                return None;
            }
            match parse_cases(src, skip(src, q + 1), one(param)) {
                None => None,
                Some((nodes, end)) => Some(
                    (Node::branch(Rule::Switch, nodes), skip_semicolon(src, end)),
                ),
            }
        },
    }
}

fn parse_union(src: &Source, i: usize) -> (r: Option<(Node, usize)>)
    requires
        i <= src.chars().len(),
    ensures
        node_at(r, union_at(src.chars(), i as int)),
        r is Some ==> i < r.unwrap().1 <= src.chars().len(),
{
    let e0 = end_of_word(src, i);
    if !src.word_is(i, e0, "union") {
        return None;
    }
    match parse_name(src, skip(src, e0)) {
        None => None,
        Some((name, e)) => match parse_switch(src, skip(src, e)) {
            None => None,
            Some((switch, end)) => Some((Node::branch(Rule::Union, two(name, switch)), end)),
        },
    }
}

fn parse_declaration(src: &Source, i: usize) -> (r: Option<(Node, usize)>)
    requires
        i <= src.chars().len(),
    ensures
        node_at(r, declaration_at(src.chars(), i as int)),
        r is Some ==> i < r.unwrap().1 <= src.chars().len(),
{
    let e0 = end_of_word(src, i);
    if src.word_is(i, e0, "typedef") {
        parse_typedef(src, i)
    } else if src.word_is(i, e0, "struct") {
        parse_struct(src, i)
    } else if src.word_is(i, e0, "enum") {
        parse_enum(src, i)
    } else if src.word_is(i, e0, "union") {
        parse_union(src, i)
    } else {
        None
    }
}

#[verifier::loop_isolation(false)]
fn parse_declarations(src: &Source, i: usize, front: Vec<Node>) -> (r: Option<
    (Vec<Node>, usize),
>)
    requires
        i <= src.chars().len(),
    ensures
        nodes_at(r, prepend(views(front@), declarations_at(src.chars(), i as int))),
        r is Some ==> i < r.unwrap().1 <= src.chars().len(),
{
    let ghost s = src.chars();
    let ghost wanted = prepend(views(front@), declarations_at(s, i as int));
    let mut nodes = front;
    let mut at: usize = i;
    loop
        invariant
            s == src.chars(),
            i <= at <= s.len(),
            wanted == prepend(views(nodes@), declarations_at(s, at as int)),
        decreases s.len() - at,
    {
        if src.has(at, '}') {
            proof {
                assert(views(nodes@) + Seq::<NodeView>::empty() == views(nodes@));
            }
            return Some((nodes, at + 1));
        }
        match parse_declaration(src, at) {
            None => {
                return None;
            },
            Some((decl, e)) => {
                proof {
                    lemma_prepend_push(
                        views(nodes@),
                        decl@,
                        declarations_at(s, skip_space(s, e as int)),
                    );
                    assert(views(nodes@.push(decl)) == views(nodes@).push(decl@));
                }
                nodes.push(decl);
                at = skip(src, e);
            },
        }
    }
}

fn parse_namespace(src: &Source, i: usize) -> (r: Option<(Node, usize)>)
    requires
        i <= src.chars().len(),
    ensures
        node_at(r, namespace_at(src.chars(), i as int)),
        r is Some ==> i < r.unwrap().1 <= src.chars().len(),
{
    match parse_header(src, i, "namespace") {
        None => None,
        Some((header, e)) => match parse_declarations(src, skip(src, e), one(header)) {
            None => None,
            Some((nodes, end)) => Some(
                (Node::branch(Rule::Namespace, nodes), skip_semicolon(src, end)),
            ),
        },
    }
}

/// The namespaces of a source with others put in front, as the grammar
/// gives them.
pub open spec fn with_front(front: Seq<NodeView>, rest: Option<Seq<NodeView>>) -> Option<
    Seq<NodeView>,
> {
    match rest {
        Some(more) => Some(front + more),
        None => None,
    }
}

#[verifier::loop_isolation(false)]
fn parse_namespaces(src: &Source, i: usize) -> (r: Option<Vec<Node>>)
    requires
        i <= src.chars().len(),
    ensures
        match r {
            Some(nodes) => namespaces_at(src.chars(), i as int) == Some(views(nodes@)),
            None => namespaces_at(src.chars(), i as int) is None,
        },
{
    let ghost s = src.chars();
    let ghost wanted = namespaces_at(s, i as int);
    let mut nodes: Vec<Node> = Vec::new();
    let mut at: usize = i;
    proof {
        assert(views(nodes@) == Seq::<NodeView>::empty());
        match wanted {
            Some(all) => {
                assert(Seq::<NodeView>::empty() + all == all);
            },
            None => {},
        }
    }
    while at < src.len()
        invariant
            s == src.chars(),
            i <= at <= s.len(),
            wanted == with_front(views(nodes@), namespaces_at(s, at as int)),
        decreases s.len() - at,
    {
        match parse_namespace(src, at) {
            None => {
                return None;
            },
            Some((ns, e)) => {
                proof {
                    match namespaces_at(s, skip_space(s, e as int)) {
                        Some(more) => {
                            assert(views(nodes@) + (seq![ns@] + more) == views(nodes@).push(ns@)
                                + more);
                        },
                        None => {},
                    }
                    assert(views(nodes@.push(ns)) == views(nodes@).push(ns@));
                }
                nodes.push(ns);
                at = skip(src, e);
            },
        }
    }
    proof {
        assert(views(nodes@) + Seq::<NodeView>::empty() == views(nodes@));
    }
    Some(nodes)
}

/// The parser of the IDL.
pub struct XDRParser;

impl XDRParser {
    /// Matches a whole source against the grammar and returns its parse
    /// tree. There is no partial result: a source that does not conform
    /// gives `Error::Grammar`.
    pub fn parse(input: &str) -> (r: Result<Node, Error>)
        ensures
            match r {
                Ok(file) => parse_file(input@) == Some(file@),
                Err(e) => e == Error::Grammar && parse_file(input@) is None,
            },
    {
        match Source::new(input) {
            None => Err(Error::Grammar),
            Some(src) => match parse_namespaces(&src, skip(&src, 0)) {
                None => Err(Error::Grammar),
                Some(nodes) => Ok(Node::branch(Rule::File, nodes)),
            },
        }
    }
}

} // verus!
