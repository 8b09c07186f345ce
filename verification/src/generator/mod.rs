//! Base-type substitution: the step that every target applies to the
//! declarations before it renders them.

use crate::ast::{
    views, Case, CaseView, Def, DefView, Enum, Error, Namespace, NamespaceView, Struct,
    StructView, Switch, SwitchView, Typedef, TypedefView, Union, UnionView,
};
use crate::text::{capitalize, capitalized};
use vstd::hash_map::StringHashMap;
use vstd::prelude::*;

pub mod commonjs;
pub mod go;
pub mod js;
pub mod rust;

verus! {

/// A target's table: the spelling it has for each IDL primitive.
pub struct TypeMap {
    entries: StringHashMap<String>,
}

impl View for TypeMap {
    type V = Map<Seq<char>, Seq<char>>;

    closed spec fn view(&self) -> Map<Seq<char>, Seq<char>> {
        self.entries@.map_values(|s: String| s@)
    }
}

impl TypeMap {
    /// The table without entries.
    pub fn new() -> (r: TypeMap)
        ensures
            r@ == Map::<Seq<char>, Seq<char>>::empty(),
    {
        let r = TypeMap { entries: StringHashMap::new() };
        proof {
            assert(r@ =~= Map::<Seq<char>, Seq<char>>::empty());
        }
        r
    }

    /// Sets the spelling of `key`, in place of any it had.
    pub fn insert(&mut self, key: &str, value: &str)
        ensures
            final(self)@ == old(self)@.insert(key@, value@),
    {
        self.entries.insert(key.to_owned(), value.to_owned());
        proof {
            assert(self@ =~= old(self)@.insert(key@, value@));
        }
    }

    /// The spelling of `key`, if the table has one.
    pub fn get(&self, key: &str) -> (r: Option<&String>)
        ensures
            match r {
                Some(value) => self@.contains_key(key@) && self@[key@] == value@,
                None => !self@.contains_key(key@),
            },
    {
        self.entries.get(key)
    }
}

/// An occurrence under the table: its type is respelled where the table
/// has an entry for it, and left as it is where it has none.
pub open spec fn map_def(def: DefView, table: Map<Seq<char>, Seq<char>>) -> DefView {
    if table.contains_key(def.type_id) {
        def.with_type(table[def.type_id])
    } else {
        def
    }
}

/// A struct with `f` applied to each of its fields.
pub open spec fn struct_with(st: StructView, f: spec_fn(DefView) -> DefView) -> StructView {
    StructView { name: st.name, props: st.props.map_values(f) }
}

/// A union with `f` applied to what each of its arms carries.
pub open spec fn union_with(un: UnionView, f: spec_fn(DefView) -> DefView) -> UnionView {
    UnionView {
        name: un.name,
        switch: SwitchView {
            enum_name: un.switch.enum_name,
            enum_type: un.switch.enum_type,
            cases: un.switch.cases.map_values(
                |c: CaseView| CaseView { value: c.value, ret_type: f(c.ret_type) },
            ),
        },
    }
}

/// A namespace with `f` applied to every occurrence in it: to each
/// typedef, to each field of each struct and to each arm of each union.
/// Names, enums and the order of everything stay.
pub open spec fn each_def(ns: NamespaceView, f: spec_fn(DefView) -> DefView) -> NamespaceView {
    NamespaceView {
        name: ns.name,
        typedefs: ns.typedefs.map_values(|t: TypedefView| TypedefView { def: f(t.def) }),
        unions: ns.unions.map_values(|u: UnionView| union_with(u, f)),
        enums: ns.enums,
        structs: ns.structs.map_values(|s: StructView| struct_with(s, f)),
    }
}

/// A namespace under the table.
pub open spec fn map_namespace(ns: NamespaceView, table: Map<Seq<char>, Seq<char>>) -> NamespaceView {
    each_def(ns, |d: DefView| map_def(d, table))
}

/// A list of namespaces under the table.
pub open spec fn map_namespaces(
    namespaces: Seq<NamespaceView>,
    table: Map<Seq<char>, Seq<char>>,
) -> Seq<NamespaceView> {
    namespaces.map_values(|ns: NamespaceView| map_namespace(ns, table))
}

/// An occurrence with its name capitalised.
pub open spec fn export_def(def: DefView) -> DefView {
    def.with_name(capitalized(def.name))
}

/// What is done to each occurrence.
pub(crate) enum Rewrite<'a> {
    Respell(&'a TypeMap),
    Capitalize,
}

impl<'a> Rewrite<'a> {
    pub(crate) open spec fn on(&self) -> spec_fn(DefView) -> DefView {
        match self {
            Rewrite::Respell(type_map) => |d: DefView| map_def(d, type_map@),
            Rewrite::Capitalize => |d: DefView| export_def(d),
        }
    }
}

fn rewrite_def(def: &Def, how: &Rewrite) -> (r: Def)
    ensures
        r@ == (how.on())(def@),
{
    match how {
        Rewrite::Respell(type_map) => match type_map.get(def.type_id.as_str()) {
            Some(value) => Def {
                name: def.name.clone(),
                type_id: value.clone(),
                fixed_array: def.fixed_array,
                array_size: def.array_size,
            },
            None => def.clone(),
        },
        Rewrite::Capitalize => Def {
            name: capitalize(def.name.as_str()),
            type_id: def.type_id.clone(),
            fixed_array: def.fixed_array,
            array_size: def.array_size,
        },
    }
}

fn rewrite_struct(st: &Struct, how: &Rewrite) -> (r: Struct)
    ensures
        r@ == struct_with(st@, how.on()),
{
    let mut props: Vec<Def> = Vec::new();
    let mut i: usize = 0;
    while i < st.props.len()
        invariant
            i <= st.props.len(),
            props@.len() == i,
            forall|q: int| 0 <= q < i ==> (#[trigger] props@[q])@ == (how.on())(st.props@[q]@),
        decreases st.props.len() - i,
    {
        props.push(rewrite_def(&st.props[i], how));
        i = i + 1;
    }
    proof {
        assert(views(props@) =~= struct_with(st@, how.on()).props);
    }
    Struct { name: st.name.clone(), props }
}

fn rewrite_union(un: &Union, how: &Rewrite) -> (r: Union)
    ensures
        r@ == union_with(un@, how.on()),
{
    let mut cases: Vec<Case> = Vec::new();
    let mut i: usize = 0;
    while i < un.switch.cases.len()
        invariant
            i <= un.switch.cases.len(),
            cases@.len() == i,
            forall|q: int|
                0 <= q < i ==> (#[trigger] cases@[q])@ == (CaseView {
                    value: un.switch.cases@[q]@.value,
                    ret_type: (how.on())(un.switch.cases@[q]@.ret_type),
                }),
        decreases un.switch.cases.len() - i,
    {
        let case = &un.switch.cases[i];
        cases.push(Case { value: case.value.clone(), ret_type: rewrite_def(&case.ret_type, how) });
        i = i + 1;
    }
    proof {
        assert(views(cases@) =~= union_with(un@, how.on()).switch.cases);
    }
    Union {
        name: un.name.clone(),
        switch: Switch {
            enum_name: un.switch.enum_name.clone(),
            enum_type: un.switch.enum_type.clone(),
            cases,
        },
    }
}

fn rewrite_namespace(ns: &Namespace, how: &Rewrite) -> (r: Namespace)
    ensures
        r@ == each_def(ns@, how.on()),
{
    let mut typedefs: Vec<Typedef> = Vec::new();
    let mut i: usize = 0;
    while i < ns.typedefs.len()
        invariant
            i <= ns.typedefs.len(),
            typedefs@.len() == i,
            forall|q: int|
                0 <= q < i ==> (#[trigger] typedefs@[q])@ == (TypedefView {
                    def: (how.on())(ns.typedefs@[q]@.def),
                }),
        decreases ns.typedefs.len() - i,
    {
        typedefs.push(Typedef { def: rewrite_def(&ns.typedefs[i].def, how) });
        i = i + 1;
    }
    let mut structs: Vec<Struct> = Vec::new();
    let mut j: usize = 0;
    while j < ns.structs.len()
        invariant
            j <= ns.structs.len(),
            structs@.len() == j,
            forall|q: int|
                0 <= q < j ==> (#[trigger] structs@[q])@ == struct_with(ns.structs@[q]@, how.on()),
        decreases ns.structs.len() - j,
    {
        structs.push(rewrite_struct(&ns.structs[j], how));
        j = j + 1;
    }
    let mut unions: Vec<Union> = Vec::new();
    let mut k: usize = 0;
    while k < ns.unions.len()
        invariant
            k <= ns.unions.len(),
            unions@.len() == k,
            forall|q: int|
                0 <= q < k ==> (#[trigger] unions@[q])@ == union_with(ns.unions@[q]@, how.on()),
        decreases ns.unions.len() - k,
    {
        unions.push(rewrite_union(&ns.unions[k], how));
        k = k + 1;
    }
    let mut enums: Vec<Enum> = Vec::new();
    let mut m: usize = 0;
    while m < ns.enums.len()
        invariant
            m <= ns.enums.len(),
            enums@.len() == m,
            forall|q: int| 0 <= q < m ==> (#[trigger] enums@[q])@ == ns.enums@[q]@,
        decreases ns.enums.len() - m,
    {
        enums.push(ns.enums[m].clone());
        m = m + 1;
    }
    proof {
        let want = each_def(ns@, how.on());
        assert(views(typedefs@) =~= want.typedefs);
        assert(views(structs@) =~= want.structs);
        assert(views(unions@) =~= want.unions);
        assert(views(enums@) =~= want.enums);
    }
    Namespace { name: ns.name.clone(), typedefs, unions, enums, structs }
}

/// Applies one rewrite to every occurrence of every namespace.
pub(crate) fn rewrite(namespaces: &Vec<Namespace>, how: &Rewrite) -> (r: Vec<Namespace>)
    ensures
        views(r@) == views(namespaces@).map_values(|ns: NamespaceView| each_def(ns, how.on())),
{
    let mut out: Vec<Namespace> = Vec::new();
    let mut i: usize = 0;
    while i < namespaces.len()
        invariant
            i <= namespaces.len(),
            out@.len() == i,
            forall|q: int|
                0 <= q < i ==> (#[trigger] out@[q])@ == each_def(namespaces@[q]@, how.on()),
        decreases namespaces.len() - i,
    {
        out.push(rewrite_namespace(&namespaces[i], how));
        i = i + 1;
    }
    proof {
        assert(views(out@) =~= views(namespaces@).map_values(
            |ns: NamespaceView| each_def(ns, how.on()),
        ));
    }
    out
}

/// Respells the type of every occurrence for which the table has an
/// entry: in typedefs, in the fields of structs and in the arms of
/// unions. A name without an entry refers to a declared type and is left
/// as it is. Nothing else changes, and the call always succeeds.
pub fn apply_type_map(namespaces: Vec<Namespace>, type_map: &TypeMap) -> (r: Result<
    Vec<Namespace>,
    Error,
>)
    ensures
        r is Ok,
        views(r.unwrap()@) == map_namespaces(views(namespaces@), type_map@),
{
    let mapped = rewrite(&namespaces, &Rewrite::Respell(type_map));
    proof {
        assert(views(mapped@) =~= map_namespaces(views(namespaces@), type_map@));
    }
    Ok(mapped)
}

} // verus!
