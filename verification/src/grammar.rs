//! The grammar of the IDL.
//!
//! ```text
//! file        = namespace*
//! namespace   = "namespace" name "{" declaration* "}" ";"?
//! declaration = typedef | struct | enum | union
//! typedef     = "typedef" type_decl ";"
//! struct      = "struct" name "{" (type_decl ";")* "}" ";"?
//! enum        = "enum" name "{" (member ("," member)*)? "}" ";"?
//! member      = name "=" number
//! union       = "union" name "switch" "(" name name ")" "{" case* "}" ";"?
//! case        = "case" name ":" ("void" | type_decl) ";"
//! type_decl   = type (array name? | name array?)?
//! array       = "<" digit* ">" | "[" digit+ "]"
//! number      = "-"? digit+
//! ```
//!
//! A name is a run of letters, digits and underscores that does not start
//! with a digit; a type is a name or one of `unsigned int` and
//! `unsigned hyper`. Blanks, tabs and line ends may stand between any two
//! tokens, and a source is ASCII throughout. Each spec function below takes
//! the position at which its rule starts and gives the node it matches
//! with the position behind it.

use crate::text::is_digit;
use crate::tree::{NodeView, Rule};
use vstd::prelude::*;
use vstd::utf8::is_ascii_chars;

verus! {

/// Whether `c` is white space: a blank, a tab or a line end.
pub open spec fn is_space(c: char) -> bool {
    c == ' ' || c == '\t' || c == '\n' || c == '\r'
}

/// Whether `c` can stand in a name.
pub open spec fn is_word_char(c: char) -> bool {
    ('a' <= c && c <= 'z') || ('A' <= c && c <= 'Z') || is_digit(c) || c == '_'
}

/// The first position from `i` on that holds no white space.
pub open spec fn skip_space(s: Seq<char>, i: int) -> int
    decreases s.len() - i,
{
    if 0 <= i < s.len() && is_space(s[i]) {
        skip_space(s, i + 1)
    } else {
        i
    }
}

/// The first position from `i` on that holds no character of a name.
pub open spec fn word_end(s: Seq<char>, i: int) -> int
    decreases s.len() - i,
{
    if 0 <= i < s.len() && is_word_char(s[i]) {
        word_end(s, i + 1)
    } else {
        i
    }
}

/// The first position from `i` on that holds no digit.
pub open spec fn digits_end(s: Seq<char>, i: int) -> int
    decreases s.len() - i,
{
    if 0 <= i < s.len() && is_digit(s[i]) {
        digits_end(s, i + 1)
    } else {
        i
    }
}

/// The longest run of name characters that starts at `i`.
pub open spec fn word_at(s: Seq<char>, i: int) -> Seq<char> {
    s.subrange(i, word_end(s, i))
}

/// Whether the character at `i` is `c`.
pub open spec fn symbol_at(s: Seq<char>, i: int, c: char) -> bool {
    0 <= i < s.len() && s[i] == c
}

/// The position behind a match.
pub open spec fn end_of<T>(r: Option<(T, int)>) -> int {
    match r {
        Some((_, end)) => end,
        None => 0,
    }
}

/// A node without children.
pub open spec fn token(rule: Rule, text: Seq<char>) -> NodeView {
    NodeView { rule, text, inner: Seq::empty() }
}

/// A node without text.
pub open spec fn branch(rule: Rule, inner: Seq<NodeView>) -> NodeView {
    NodeView { rule, text: Seq::empty(), inner }
}

/// Whether a name starts at `i`.
pub open spec fn name_starts(s: Seq<char>, i: int) -> bool {
    0 <= i < s.len() && is_word_char(s[i]) && !is_digit(s[i])
}

/// A name.
pub open spec fn name_at(s: Seq<char>, i: int) -> Option<(NodeView, int)> {
    if name_starts(s, i) {
        Some((token(Rule::Identifier, word_at(s, i)), word_end(s, i)))
    } else {
        None
    }
}

/// Whether `word` names a primitive by itself.
pub open spec fn is_primitive_word(word: Seq<char>) -> bool {
    word == "int"@ || word == "hyper"@ || word == "float"@ || word == "double"@ || word
        == "boolean"@ || word == "string"@ || word == "opaque"@
}

/// Whether a primitive of two words starts at `i`: `unsigned`, one blank,
/// and `int` or `hyper`.
pub open spec fn two_words_at(s: Seq<char>, i: int) -> bool {
    let e = word_end(s, i);
    word_at(s, i) == "unsigned"@ && symbol_at(s, e, ' ') && (word_at(s, e + 1) == "int"@
        || word_at(s, e + 1) == "hyper"@)
}

/// A type: a primitive or a name.
pub open spec fn type_at(s: Seq<char>, i: int) -> Option<(NodeView, int)> {
    if !name_starts(s, i) {
        None
    } else if two_words_at(s, i) {
        let e = word_end(s, word_end(s, i) + 1);
        Some((token(Rule::Types, s.subrange(i, e)), e))
    } else if is_primitive_word(word_at(s, i)) {
        Some((token(Rule::Types, word_at(s, i)), word_end(s, i)))
    } else {
        Some((token(Rule::Identifier, word_at(s, i)), word_end(s, i)))
    }
}

/// An integer literal: digits behind an optional minus sign.
pub open spec fn number_at(s: Seq<char>, i: int) -> Option<(NodeView, int)> {
    let from = if symbol_at(s, i, '-') {
        i + 1
    } else {
        i
    };
    let e = digits_end(s, from);
    if 0 <= i && from < e {
        Some((token(Rule::Number, s.subrange(i, e)), e))
    } else {
        None
    }
}

/// An array suffix: `<>`, `<n>` or `[n]`, with nothing but digits between
/// the brackets.
pub open spec fn array_at(s: Seq<char>, i: int) -> Option<(NodeView, int)> {
    let e = digits_end(s, i + 1);
    if symbol_at(s, i, '<') && symbol_at(s, e, '>') {
        Some((branch(Rule::ArrayDef, seq![token(Rule::VarArray, s.subrange(i, e + 1))]), e + 1))
    } else if symbol_at(s, i, '[') && i + 1 < e && symbol_at(s, e, ']') {
        Some(
            (branch(Rule::ArrayDef, seq![token(Rule::FixedArray, s.subrange(i, e + 1))]), e + 1),
        )
    } else {
        None
    }
}

/// A type declaration: a type, with an array suffix and a field name in
/// either order, each of them optional.
pub open spec fn type_decl_at(s: Seq<char>, i: int) -> Option<(NodeView, int)> {
    match type_at(s, i) {
        None => None,
        Some((ty, e1)) => {
            let j = skip_space(s, e1);
            match array_at(s, j) {
                Some((array, e2)) => match name_at(s, skip_space(s, e2)) {
                    Some((name, e3)) => Some((branch(Rule::TypeDecl, seq![ty, array, name]), e3)),
                    None => Some((branch(Rule::TypeDecl, seq![ty, array]), e2)),
                },
                None => match name_at(s, j) {
                    Some((name, e2)) => match array_at(s, skip_space(s, e2)) {
                        Some((array, e3)) => Some(
                            (branch(Rule::TypeDecl, seq![ty, name, array]), e3),
                        ),
                        None => Some((branch(Rule::TypeDecl, seq![ty, name]), e2)),
                    },
                    None => Some((branch(Rule::TypeDecl, seq![ty]), e1)),
                },
            }
        },
    }
}

/// The header of a block: the keyword, the block's name and `{`.
pub open spec fn header_at(s: Seq<char>, i: int, keyword: Seq<char>) -> Option<(NodeView, int)> {
    if word_at(s, i) != keyword {
        None
    } else {
        match name_at(s, skip_space(s, word_end(s, i))) {
            None => None,
            Some((name, e)) => {
                let k = skip_space(s, e);
                if symbol_at(s, k, '{') {
                    Some((branch(Rule::BracketStart, seq![name]), k + 1))
                } else {
                    None
                }
            },
        }
    }
}

/// The position behind an optional `;` that may follow a closing brace at
/// `i`.
pub open spec fn after_semicolon(s: Seq<char>, i: int) -> int {
    let k = skip_space(s, i);
    if symbol_at(s, k, ';') {
        k + 1
    } else {
        i
    }
}

/// A typedef: the keyword, a type declaration and `;`.
pub open spec fn typedef_at(s: Seq<char>, i: int) -> Option<(NodeView, int)> {
    if word_at(s, i) != "typedef"@ {
        None
    } else {
        match type_decl_at(s, skip_space(s, word_end(s, i))) {
            None => None,
            Some((decl, e)) => {
                let k = skip_space(s, e);
                if symbol_at(s, k, ';') {
                    Some((branch(Rule::Typedef, seq![decl]), k + 1))
                } else {
                    None
                }
            },
        }
    }
}

/// A list of items with the position behind it, with more items put in
/// front.
pub open spec fn prepend(items: Seq<NodeView>, rest: Option<(Seq<NodeView>, int)>) -> Option<
    (Seq<NodeView>, int),
> {
    match rest {
        Some((more, end)) => Some((items + more, end)),
        None => None,
    }
}

/// The fields of a struct up to and with its closing brace.
pub open spec fn fields_at(s: Seq<char>, i: int) -> Option<(Seq<NodeView>, int)>
    decreases s.len() - i,
    when 0 <= i <= s.len()
{
    if symbol_at(s, i, '}') {
        Some((Seq::empty(), i + 1))
    } else {
        match type_decl_at(s, i) {
            None => None,
            Some((decl, e)) => {
                let k = skip_space(s, e);
                if symbol_at(s, k, ';') {
                    proof {
                        lemma_type_decl_advances(s, i);
                        lemma_skip_space_bounds(s, e);
                        lemma_skip_space_bounds(s, k + 1);
                    }
                    prepend(seq![decl], fields_at(s, skip_space(s, k + 1)))
                } else {
                    None
                }
            },
        }
    }
}

/// A struct: its header and its fields.
pub open spec fn struct_at(s: Seq<char>, i: int) -> Option<(NodeView, int)> {
    match header_at(s, i, "struct"@) {
        None => None,
        Some((header, e)) => match fields_at(s, skip_space(s, e)) {
            None => None,
            Some((fields, end)) => Some(
                (branch(Rule::Struct, seq![header] + fields), after_semicolon(s, end)),
            ),
        },
    }
}

/// A member of an enum: its name, `=` and its number.
pub open spec fn member_at(s: Seq<char>, i: int) -> Option<(NodeView, int)> {
    match name_at(s, i) {
        None => None,
        Some((name, e)) => {
            let k = skip_space(s, e);
            if symbol_at(s, k, '=') {
                match number_at(s, skip_space(s, k + 1)) {
                    Some((number, end)) => Some(
                        (branch(Rule::EnumDecl, seq![name, number]), end),
                    ),
                    None => None,
                }
            } else {
                None
            }
        },
    }
}

/// One member or more, with commas between them, and the closing brace.
pub open spec fn members_at(s: Seq<char>, i: int) -> Option<(Seq<NodeView>, int)>
    decreases s.len() - i,
    when 0 <= i <= s.len()
{
    match member_at(s, i) {
        None => None,
        Some((member, e)) => {
            let k = skip_space(s, e);
            if symbol_at(s, k, ',') {
                proof {
                    lemma_member_advances(s, i);
                    lemma_skip_space_bounds(s, e);
                    lemma_skip_space_bounds(s, k + 1);
                }
                prepend(seq![member], members_at(s, skip_space(s, k + 1)))
            } else if symbol_at(s, k, '}') {
                Some((seq![member], k + 1))
            } else {
                None
            }
        },
    }
}

/// An enum: its header and its members, of which there may be none.
pub open spec fn enum_at(s: Seq<char>, i: int) -> Option<(NodeView, int)> {
    match header_at(s, i, "enum"@) {
        None => None,
        Some((header, e)) => {
            let j = skip_space(s, e);
            if symbol_at(s, j, '}') {
                Some((branch(Rule::Enum, seq![header]), after_semicolon(s, j + 1)))
            } else {
                match members_at(s, j) {
                    None => None,
                    Some((members, end)) => Some(
                        (branch(Rule::Enum, seq![header] + members), after_semicolon(s, end)),
                    ),
                }
            }
        },
    }
}

/// An arm of a union. An arm that says `void` has no type declaration.
pub open spec fn case_at(s: Seq<char>, i: int) -> Option<(NodeView, int)> {
    if word_at(s, i) != "case"@ {
        None
    } else {
        match name_at(s, skip_space(s, word_end(s, i))) {
            None => None,
            Some((value, e)) => {
                let k = skip_space(s, e);
                if !symbol_at(s, k, ':') {
                    None
                } else {
                    let m = skip_space(s, k + 1);
                    if word_at(s, m) == "void"@ {
                        let p = skip_space(s, word_end(s, m));
                        if symbol_at(s, p, ';') {
                            Some((branch(Rule::CaseStatement, seq![value]), p + 1))
                        } else {
                            None
                        }
                    } else {
                        match type_decl_at(s, m) {
                            None => None,
                            Some((decl, e2)) => {
                                let p = skip_space(s, e2);
                                if symbol_at(s, p, ';') {
                                    Some((branch(Rule::CaseStatement, seq![value, decl]), p + 1))
                                } else {
                                    None
                                }
                            },
                        }
                    }
                }
            },
        }
    }
}

/// The arms of a union up to and with the closing brace.
pub open spec fn cases_at(s: Seq<char>, i: int) -> Option<(Seq<NodeView>, int)>
    decreases s.len() - i,
    when 0 <= i <= s.len()
{
    if symbol_at(s, i, '}') {
        Some((Seq::empty(), i + 1))
    } else {
        match case_at(s, i) {
            None => None,
            Some((arm, e)) => {
                proof {
                    lemma_case_advances(s, i);
                    lemma_skip_space_bounds(s, e);
                }
                prepend(seq![arm], cases_at(s, skip_space(s, e)))
            },
        }
    }
}

/// The discriminant of a switch: two names.
pub open spec fn param_at(s: Seq<char>, i: int) -> Option<(NodeView, int)> {
    match name_at(s, i) {
        None => None,
        Some((ty, e)) => match name_at(s, skip_space(s, e)) {
            None => None,
            Some((name, end)) => Some((branch(Rule::SingleParam, seq![ty, name]), end)),
        },
    }
}

/// The switch of a union: the discriminant in parentheses and the arms in
/// braces.
pub open spec fn switch_at(s: Seq<char>, i: int) -> Option<(NodeView, int)> {
    let j = skip_space(s, word_end(s, i));
    if word_at(s, i) != "switch"@ || !symbol_at(s, j, '(') {
        None
    } else {
        match param_at(s, skip_space(s, j + 1)) {
            None => None,
            Some((param, e)) => {
                let m = skip_space(s, e);
                let q = skip_space(s, m + 1);
                if symbol_at(s, m, ')') && symbol_at(s, q, '{') {
                    match cases_at(s, skip_space(s, q + 1)) {
                        None => None,
                        Some((arms, end)) => Some(
                            (
                                branch(Rule::Switch, seq![param] + arms),
                                after_semicolon(s, end),
                            ),
                        ),
                    }
                } else {
                    None
                }
            },
        }
    }
}

/// A union: the keyword, the union's name and its switch.
pub open spec fn union_at(s: Seq<char>, i: int) -> Option<(NodeView, int)> {
    if word_at(s, i) != "union"@ {
        None
    } else {
        match name_at(s, skip_space(s, word_end(s, i))) {
            None => None,
            Some((name, e)) => match switch_at(s, skip_space(s, e)) {
                None => None,
                Some((switch, end)) => Some((branch(Rule::Union, seq![name, switch]), end)),
            },
        }
    }
}

/// A declaration, told by its keyword.
pub open spec fn declaration_at(s: Seq<char>, i: int) -> Option<(NodeView, int)> {
    if word_at(s, i) == "typedef"@ {
        typedef_at(s, i)
    } else if word_at(s, i) == "struct"@ {
        struct_at(s, i)
    } else if word_at(s, i) == "enum"@ {
        enum_at(s, i)
    } else if word_at(s, i) == "union"@ {
        union_at(s, i)
    } else {
        None
    }
}

/// The declarations of a namespace up to and with its closing brace.
pub open spec fn declarations_at(s: Seq<char>, i: int) -> Option<(Seq<NodeView>, int)>
    decreases s.len() - i,
    when 0 <= i <= s.len()
{
    if symbol_at(s, i, '}') {
        Some((Seq::empty(), i + 1))
    } else {
        match declaration_at(s, i) {
            None => None,
            Some((decl, e)) => {
                proof {
                    lemma_declaration_advances(s, i);
                    lemma_skip_space_bounds(s, e);
                }
                prepend(seq![decl], declarations_at(s, skip_space(s, e)))
            },
        }
    }
}

/// A namespace: its header and its declarations.
pub open spec fn namespace_at(s: Seq<char>, i: int) -> Option<(NodeView, int)> {
    match header_at(s, i, "namespace"@) {
        None => None,
        Some((header, e)) => match declarations_at(s, skip_space(s, e)) {
            None => None,
            Some((decls, end)) => Some(
                (branch(Rule::Namespace, seq![header] + decls), after_semicolon(s, end)),
            ),
        },
    }
}

/// The namespaces from `i` to the end of the source.
pub open spec fn namespaces_at(s: Seq<char>, i: int) -> Option<Seq<NodeView>>
    decreases s.len() - i,
    when 0 <= i <= s.len()
{
    if i >= s.len() {
        Some(Seq::empty())
    } else {
        match namespace_at(s, i) {
            None => None,
            Some((ns, e)) => {
                proof {
                    lemma_namespace_advances(s, i);
                    lemma_skip_space_bounds(s, e);
                }
                match namespaces_at(s, skip_space(s, e)) {
                    None => None,
                    Some(more) => Some(seq![ns] + more),
                }
            },
        }
    }
}

/// The parse tree of a source, if the source conforms to the grammar.
pub open spec fn parse_file(text: Seq<char>) -> Option<NodeView> {
    if !is_ascii_chars(text) {
        None
    } else {
        match namespaces_at(text, skip_space(text, 0)) {
            Some(namespaces) => Some(branch(Rule::File, namespaces)),
            None => None,
        }
    }
}

/// Each of the lemmas below says of one rule that what it matches ends
/// within the source, and behind where it starts if the rule cannot match
/// nothing. The lists of the grammar terminate by them.
pub proof fn lemma_skip_space_bounds(s: Seq<char>, i: int)
    requires
        0 <= i <= s.len(),
    ensures
        i <= skip_space(s, i) <= s.len(),
    decreases s.len() - i,
{
    if i < s.len() && is_space(s[i]) {
        lemma_skip_space_bounds(s, i + 1);
    }
}

pub proof fn lemma_word_end_bounds(s: Seq<char>, i: int)
    requires
        0 <= i <= s.len(),
    ensures
        i <= word_end(s, i) <= s.len(),
        i < s.len() && is_word_char(s[i]) ==> i < word_end(s, i),
    decreases s.len() - i,
{
    if i < s.len() && is_word_char(s[i]) {
        lemma_word_end_bounds(s, i + 1);
    }
}

pub proof fn lemma_digits_end_bounds(s: Seq<char>, i: int)
    requires
        0 <= i <= s.len(),
    ensures
        i <= digits_end(s, i) <= s.len(),
    decreases s.len() - i,
{
    if i < s.len() && is_digit(s[i]) {
        lemma_digits_end_bounds(s, i + 1);
    }
}

pub proof fn lemma_name_advances(s: Seq<char>, i: int)
    requires
        0 <= i <= s.len(),
        name_at(s, i) is Some,
    ensures
        i < end_of(name_at(s, i)) <= s.len(),
{
    lemma_word_end_bounds(s, i);
}

pub proof fn lemma_array_advances(s: Seq<char>, i: int)
    requires
        0 <= i <= s.len(),
        array_at(s, i) is Some,
    ensures
        i < end_of(array_at(s, i)) <= s.len(),
{
    lemma_digits_end_bounds(s, i + 1);
}

pub proof fn lemma_type_advances(s: Seq<char>, i: int)
    requires
        0 <= i <= s.len(),
        type_at(s, i) is Some,
    ensures
        i < end_of(type_at(s, i)) <= s.len(),
{
    lemma_word_end_bounds(s, i);
    if two_words_at(s, i) {
        lemma_word_end_bounds(s, word_end(s, i) + 1);
    }
}

pub proof fn lemma_type_decl_advances(s: Seq<char>, i: int)
    requires
        0 <= i <= s.len(),
        type_decl_at(s, i) is Some,
    ensures
        i < end_of(type_decl_at(s, i)) <= s.len(),
{
    lemma_type_advances(s, i);
    let e1 = end_of(type_at(s, i));
    lemma_skip_space_bounds(s, e1);
    let j = skip_space(s, e1);
    if array_at(s, j) is Some {
        lemma_array_advances(s, j);
        let e2 = end_of(array_at(s, j));
        lemma_skip_space_bounds(s, e2);
        if name_at(s, skip_space(s, e2)) is Some {
            lemma_name_advances(s, skip_space(s, e2));
        }
    } else if name_at(s, j) is Some {
        lemma_name_advances(s, j);
        let e2 = end_of(name_at(s, j));
        lemma_skip_space_bounds(s, e2);
        if array_at(s, skip_space(s, e2)) is Some {
            lemma_array_advances(s, skip_space(s, e2));
        }
    }
}

pub proof fn lemma_member_advances(s: Seq<char>, i: int)
    requires
        0 <= i <= s.len(),
        member_at(s, i) is Some,
    ensures
        i < end_of(member_at(s, i)) <= s.len(),
{
    lemma_name_advances(s, i);
    let e = end_of(name_at(s, i));
    lemma_skip_space_bounds(s, e);
    let k = skip_space(s, e);
    lemma_skip_space_bounds(s, k + 1);
    let j = skip_space(s, k + 1);
    if symbol_at(s, j, '-') {
        lemma_digits_end_bounds(s, j + 1);
    } else {
        lemma_digits_end_bounds(s, j);
    }
}

pub proof fn lemma_after_semicolon_bounds(s: Seq<char>, i: int)
    requires
        0 <= i <= s.len(),
    ensures
        i <= after_semicolon(s, i) <= s.len(),
{
    lemma_skip_space_bounds(s, i);
}

pub proof fn lemma_case_advances(s: Seq<char>, i: int)
    requires
        0 <= i <= s.len(),
        case_at(s, i) is Some,
    ensures
        i < end_of(case_at(s, i)) <= s.len(),
{
    lemma_word_end_bounds(s, i);
    let j = skip_space(s, word_end(s, i));
    lemma_skip_space_bounds(s, word_end(s, i));
    lemma_name_advances(s, j);
    let e = end_of(name_at(s, j));
    lemma_skip_space_bounds(s, e);
    let k = skip_space(s, e);
    lemma_skip_space_bounds(s, k + 1);
    let m = skip_space(s, k + 1);
    if word_at(s, m) == "void"@ {
        lemma_word_end_bounds(s, m);
        lemma_skip_space_bounds(s, word_end(s, m));
    } else {
        lemma_type_decl_advances(s, m);
        lemma_skip_space_bounds(s, end_of(type_decl_at(s, m)));
    }
}

pub proof fn lemma_header_advances(s: Seq<char>, i: int, keyword: Seq<char>)
    requires
        0 <= i <= s.len(),
        header_at(s, i, keyword) is Some,
    ensures
        i < end_of(header_at(s, i, keyword)) <= s.len(),
{
    lemma_word_end_bounds(s, i);
    lemma_skip_space_bounds(s, word_end(s, i));
    let j = skip_space(s, word_end(s, i));
    lemma_name_advances(s, j);
    lemma_skip_space_bounds(s, end_of(name_at(s, j)));
}

/// A list of items ends behind where it starts, and within the source.
pub proof fn lemma_fields_advance(s: Seq<char>, i: int)
    requires
        0 <= i <= s.len(),
        fields_at(s, i) is Some,
    ensures
        i < end_of(fields_at(s, i)) <= s.len(),
    decreases s.len() - i,
{
    if !symbol_at(s, i, '}') {
        lemma_type_decl_advances(s, i);
        let e = end_of(type_decl_at(s, i));
        lemma_skip_space_bounds(s, e);
        let k = skip_space(s, e);
        lemma_skip_space_bounds(s, k + 1);
        lemma_fields_advance(s, skip_space(s, k + 1));
    }
}

pub proof fn lemma_members_advance(s: Seq<char>, i: int)
    requires
        0 <= i <= s.len(),
        members_at(s, i) is Some,
    ensures
        i < end_of(members_at(s, i)) <= s.len(),
    decreases s.len() - i,
{
    lemma_member_advances(s, i);
    let e = end_of(member_at(s, i));
    lemma_skip_space_bounds(s, e);
    let k = skip_space(s, e);
    if symbol_at(s, k, ',') {
        lemma_skip_space_bounds(s, k + 1);
        lemma_members_advance(s, skip_space(s, k + 1));
    }
}

pub proof fn lemma_cases_advance(s: Seq<char>, i: int)
    requires
        0 <= i <= s.len(),
        cases_at(s, i) is Some,
    ensures
        i < end_of(cases_at(s, i)) <= s.len(),
    decreases s.len() - i,
{
    if !symbol_at(s, i, '}') {
        lemma_case_advances(s, i);
        let e = end_of(case_at(s, i));
        lemma_skip_space_bounds(s, e);
        lemma_cases_advance(s, skip_space(s, e));
    }
}

pub proof fn lemma_declaration_advances(s: Seq<char>, i: int)
    requires
        0 <= i <= s.len(),
        declaration_at(s, i) is Some,
    ensures
        i < end_of(declaration_at(s, i)) <= s.len(),
{
    lemma_word_end_bounds(s, i);
    lemma_skip_space_bounds(s, word_end(s, i));
    let j = skip_space(s, word_end(s, i));
    if word_at(s, i) == "typedef"@ {
        lemma_type_decl_advances(s, j);
        lemma_skip_space_bounds(s, end_of(type_decl_at(s, j)));
    } else if word_at(s, i) == "struct"@ {
        lemma_header_advances(s, i, "struct"@);
        let e = end_of(header_at(s, i, "struct"@));
        lemma_skip_space_bounds(s, e);
        lemma_fields_advance(s, skip_space(s, e));
        lemma_after_semicolon_bounds(s, end_of(fields_at(s, skip_space(s, e))));
    } else if word_at(s, i) == "enum"@ {
        lemma_header_advances(s, i, "enum"@);
        let e = end_of(header_at(s, i, "enum"@));
        lemma_skip_space_bounds(s, e);
        let k = skip_space(s, e);
        if symbol_at(s, k, '}') {
            lemma_after_semicolon_bounds(s, k + 1);
        } else {
            lemma_members_advance(s, k);
            lemma_after_semicolon_bounds(s, end_of(members_at(s, k)));
        }
    } else {
        lemma_name_advances(s, j);
        let e = end_of(name_at(s, j));
        lemma_skip_space_bounds(s, e);
        let w = skip_space(s, e);
        lemma_word_end_bounds(s, w);
        lemma_skip_space_bounds(s, word_end(s, w));
        let p = skip_space(s, word_end(s, w));
        lemma_skip_space_bounds(s, p + 1);
        let a = skip_space(s, p + 1);
        lemma_name_advances(s, a);
        let e1 = end_of(name_at(s, a));
        lemma_skip_space_bounds(s, e1);
        lemma_name_advances(s, skip_space(s, e1));
        let e2 = end_of(name_at(s, skip_space(s, e1)));
        lemma_skip_space_bounds(s, e2);
        let m = skip_space(s, e2);
        lemma_skip_space_bounds(s, m + 1);
        let q = skip_space(s, m + 1);
        lemma_skip_space_bounds(s, q + 1);
        lemma_cases_advance(s, skip_space(s, q + 1));
        lemma_after_semicolon_bounds(s, end_of(cases_at(s, skip_space(s, q + 1))));
    }
}

pub proof fn lemma_declarations_advance(s: Seq<char>, i: int)
    requires
        0 <= i <= s.len(),
        declarations_at(s, i) is Some,
    ensures
        i < end_of(declarations_at(s, i)) <= s.len(),
    decreases s.len() - i,
{
    if !symbol_at(s, i, '}') {
        lemma_declaration_advances(s, i);
        let e = end_of(declaration_at(s, i));
        lemma_skip_space_bounds(s, e);
        lemma_declarations_advance(s, skip_space(s, e));
    }
}

pub proof fn lemma_namespace_advances(s: Seq<char>, i: int)
    requires
        0 <= i <= s.len(),
        namespace_at(s, i) is Some,
    ensures
        i < end_of(namespace_at(s, i)) <= s.len(),
{
    lemma_header_advances(s, i, "namespace"@);
    let e = end_of(header_at(s, i, "namespace"@));
    lemma_skip_space_bounds(s, e);
    lemma_declarations_advance(s, skip_space(s, e));
    lemma_after_semicolon_bounds(s, end_of(declarations_at(s, skip_space(s, e))));
}

} // verus!
