//! The declaration tree of an IDL source: namespaces holding typedefs,
//! structs, enums and unions.
//!
//! Every type has a view that replaces its strings by `Seq<char>` and its
//! vectors by `Seq`; contracts throughout the crate are stated over views.

use vstd::prelude::*;

verus! {

/// The `array_size` recorded for a variable-length array that declares no
/// bound.
pub const UNBOUNDED: i32 = 2147483647;

/// Why a source could not be turned into a declaration tree or a schema.
#[derive(Clone, Copy, Debug, PartialEq, Eq, Structural)]
pub enum Error {
    /// The source text does not conform to the grammar.
    Grammar,
    /// A parse-tree node does not have the children its rule calls for.
    Shape,
    /// A type name is neither a typedef, a struct nor a primitive.
    Resolution,
    /// A typedef or struct contains itself by value.
    Recursion,
}

/// A field or type occurrence.
#[derive(Debug, PartialEq, Eq)]
pub struct Def {
    pub name: String,
    pub type_id: String,
    pub fixed_array: bool,
    pub array_size: i32,
}

/// The view of a `Def`.
pub struct DefView {
    pub name: Seq<char>,
    pub type_id: Seq<char>,
    pub fixed_array: bool,
    pub array_size: i32,
}

impl DefView {
    /// The occurrence that names nothing: what `Def::default()` returns.
    pub open spec fn empty() -> DefView {
        DefView { name: Seq::empty(), type_id: Seq::empty(), fixed_array: false, array_size: 0 }
    }

    /// The stand-in for the payload of a union arm that carries none.
    pub open spec fn void() -> DefView {
        DefView { name: "void"@, type_id: Seq::empty(), fixed_array: false, array_size: 0 }
    }

    /// The same occurrence without its array dimension.
    pub open spec fn element(self) -> DefView {
        DefView { array_size: 0, ..self }
    }

    /// The same occurrence under another type name.
    pub open spec fn with_type(self, type_id: Seq<char>) -> DefView {
        DefView { type_id, ..self }
    }

    /// The same occurrence under another field name.
    pub open spec fn with_name(self, name: Seq<char>) -> DefView {
        DefView { name, ..self }
    }

    /// What the builder guarantees of an array dimension: it is never
    /// negative, and a fixed array never carries the unbounded mark.
    pub open spec fn well_formed(self) -> bool {
        &&& 0 <= self.array_size
        &&& self.fixed_array ==> self.array_size != UNBOUNDED
    }
}

impl View for Def {
    type V = DefView;

    open spec fn view(&self) -> DefView {
        DefView {
            name: self.name@,
            type_id: self.type_id@,
            fixed_array: self.fixed_array,
            array_size: self.array_size,
        }
    }
}

impl Clone for Def {
    fn clone(&self) -> (r: Self)
        ensures
            r@ == self@,
    {
        Def {
            name: self.name.clone(),
            type_id: self.type_id.clone(),
            fixed_array: self.fixed_array,
            array_size: self.array_size,
        }
    }
}

impl Default for Def {
    fn default() -> (r: Self)
        ensures
            r@ == DefView::empty(),
    {
        Def { name: String::new(), type_id: String::new(), fixed_array: false, array_size: 0 }
    }
}

/// The views of a sequence of values, item by item.
pub open spec fn views<T: View>(items: Seq<T>) -> Seq<T::V> {
    items.map_values(|item: T| item@)
}

/// A record: its fields in declaration order.
#[derive(Debug, PartialEq, Eq)]
pub struct Struct {
    pub name: String,
    pub props: Vec<Def>,
}

/// The view of a `Struct`.
pub struct StructView {
    pub name: Seq<char>,
    pub props: Seq<DefView>,
}

impl View for Struct {
    type V = StructView;

    open spec fn view(&self) -> StructView {
        StructView { name: self.name@, props: views(self.props@) }
    }
}

impl Clone for Struct {
    fn clone(&self) -> (r: Self)
        ensures
            r@ == self@,
    {
        let mut props: Vec<Def> = Vec::new();
        let mut i: usize = 0;
        while i < self.props.len()
            invariant
                i <= self.props.len(),
                props@.len() == i,
                forall|q: int| 0 <= q < i ==> (#[trigger] props@[q])@ == self.props@[q]@,
            decreases self.props.len() - i,
        {
            props.push(self.props[i].clone());
            i = i + 1;
        }
        proof {
            assert(views(props@) =~= views(self.props@));
        }
        Struct { name: self.name.clone(), props }
    }
}

impl Default for Struct {
    fn default() -> (r: Self)
        ensures
            r@ == (StructView { name: Seq::empty(), props: Seq::empty() }),
    {
        let r = Struct { name: String::new(), props: Vec::new() };
        proof {
            assert(views(r.props@) == Seq::<DefView>::empty());
        }
        r
    }
}

/// One member of an enum, with the integer the source gives it.
#[derive(Debug, PartialEq, Eq)]
pub struct EnumValue {
    pub name: String,
    pub index: i32,
}

/// The view of an `EnumValue`.
pub struct EnumValueView {
    pub name: Seq<char>,
    pub index: i32,
}

impl View for EnumValue {
    type V = EnumValueView;

    open spec fn view(&self) -> EnumValueView {
        EnumValueView { name: self.name@, index: self.index }
    }
}

impl Clone for EnumValue {
    fn clone(&self) -> (r: Self)
        ensures
            r@ == self@,
    {
        EnumValue { name: self.name.clone(), index: self.index }
    }
}

impl Default for EnumValue {
    fn default() -> (r: Self)
        ensures
            r@ == (EnumValueView { name: Seq::empty(), index: 0 }),
    {
        EnumValue { name: String::new(), index: 0 }
    }
}

/// An enumeration: its members in declaration order, each with the integer
/// that the source writes for it.
#[derive(Debug, PartialEq, Eq)]
pub struct Enum {
    pub name: String,
    pub values: Vec<EnumValue>,
}

/// The view of an `Enum`.
pub struct EnumView {
    pub name: Seq<char>,
    pub values: Seq<EnumValueView>,
}

impl View for Enum {
    type V = EnumView;

    open spec fn view(&self) -> EnumView {
        EnumView { name: self.name@, values: views(self.values@) }
    }
}

impl Clone for Enum {
    fn clone(&self) -> (r: Self)
        ensures
            r@ == self@,
    {
        let mut values: Vec<EnumValue> = Vec::new();
        let mut i: usize = 0;
        while i < self.values.len()
            invariant
                i <= self.values.len(),
                values@.len() == i,
                forall|q: int| 0 <= q < i ==> (#[trigger] values@[q])@ == self.values@[q]@,
            decreases self.values.len() - i,
        {
            values.push(self.values[i].clone());
            i = i + 1;
        }
        proof {
            assert(views(values@) =~= views(self.values@));
        }
        Enum { name: self.name.clone(), values }
    }
}

impl Default for Enum {
    fn default() -> (r: Self)
        ensures
            r@ == (EnumView { name: Seq::empty(), values: Seq::empty() }),
    {
        let r = Enum { name: String::new(), values: Vec::new() };
        proof {
            assert(views(r.values@) == Seq::<EnumValueView>::empty());
        }
        r
    }
}

/// One arm of a union: the discriminant literal and what the arm carries.
/// An arm without a payload carries `DefView::void()`.
#[derive(Debug, PartialEq, Eq)]
pub struct Case {
    pub value: String,
    pub ret_type: Def,
}

/// The view of a `Case`.
pub struct CaseView {
    pub value: Seq<char>,
    pub ret_type: DefView,
}

impl View for Case {
    type V = CaseView;

    open spec fn view(&self) -> CaseView {
        CaseView { value: self.value@, ret_type: self.ret_type@ }
    }
}

impl Clone for Case {
    fn clone(&self) -> (r: Self)
        ensures
            r@ == self@,
    {
        Case { value: self.value.clone(), ret_type: self.ret_type.clone() }
    }
}

impl Default for Case {
    fn default() -> (r: Self)
        ensures
            r@ == (CaseView { value: Seq::empty(), ret_type: DefView::empty() }),
    {
        Case { value: String::new(), ret_type: Def::default() }
    }
}

/// The header and arms of a union: `enum_type` is the governing enum,
/// `enum_name` the discriminant field's own name.
#[derive(Debug, PartialEq, Eq)]
pub struct Switch {
    pub enum_name: String,
    pub enum_type: String,
    pub cases: Vec<Case>,
}

/// The view of a `Switch`.
pub struct SwitchView {
    pub enum_name: Seq<char>,
    pub enum_type: Seq<char>,
    pub cases: Seq<CaseView>,
}

impl SwitchView {
    /// The switch without discriminant and arms: what `Switch::default()`
    /// returns.
    pub open spec fn empty() -> SwitchView {
        SwitchView { enum_name: Seq::empty(), enum_type: Seq::empty(), cases: Seq::empty() }
    }
}

impl View for Switch {
    type V = SwitchView;

    open spec fn view(&self) -> SwitchView {
        SwitchView {
            enum_name: self.enum_name@,
            enum_type: self.enum_type@,
            cases: views(self.cases@),
        }
    }
}

impl Clone for Switch {
    fn clone(&self) -> (r: Self)
        ensures
            r@ == self@,
    {
        let mut cases: Vec<Case> = Vec::new();
        let mut i: usize = 0;
        while i < self.cases.len()
            invariant
                i <= self.cases.len(),
                cases@.len() == i,
                forall|q: int| 0 <= q < i ==> (#[trigger] cases@[q])@ == self.cases@[q]@,
            decreases self.cases.len() - i,
        {
            cases.push(self.cases[i].clone());
            i = i + 1;
        }
        proof {
            assert(views(cases@) =~= views(self.cases@));
        }
        Switch { enum_name: self.enum_name.clone(), enum_type: self.enum_type.clone(), cases }
    }
}

impl Default for Switch {
    fn default() -> (r: Self)
        ensures
            r@ == SwitchView::empty(),
    {
        let r = Switch { enum_name: String::new(), enum_type: String::new(), cases: Vec::new() };
        proof {
            assert(views(r.cases@) == Seq::<CaseView>::empty());
        }
        r
    }
}

/// A discriminated union: its name and its switch.
#[derive(Debug, PartialEq, Eq)]
pub struct Union {
    pub name: String,
    pub switch: Switch,
}

/// The view of a `Union`.
pub struct UnionView {
    pub name: Seq<char>,
    pub switch: SwitchView,
}

impl View for Union {
    type V = UnionView;

    open spec fn view(&self) -> UnionView {
        UnionView { name: self.name@, switch: self.switch@ }
    }
}

impl Clone for Union {
    fn clone(&self) -> (r: Self)
        ensures
            r@ == self@,
    {
        Union { name: self.name.clone(), switch: self.switch.clone() }
    }
}

impl Default for Union {
    fn default() -> (r: Self)
        ensures
            r@ == (UnionView { name: Seq::empty(), switch: SwitchView::empty() }),
    {
        Union { name: String::new(), switch: Switch::default() }
    }
}

/// A named alias: `def.name` is the alias, `def.type_id` what it stands
/// for.
#[derive(Debug, PartialEq, Eq)]
pub struct Typedef {
    pub def: Def,
}

/// The view of a `Typedef`.
pub struct TypedefView {
    pub def: DefView,
}

impl View for Typedef {
    type V = TypedefView;

    open spec fn view(&self) -> TypedefView {
        TypedefView { def: self.def@ }
    }
}

impl Clone for Typedef {
    fn clone(&self) -> (r: Self)
        ensures
            r@ == self@,
    {
        Typedef { def: self.def.clone() }
    }
}

impl Default for Typedef {
    fn default() -> (r: Self)
        ensures
            r@ == (TypedefView { def: DefView::empty() }),
    {
        Typedef { def: Def::default() }
    }
}

/// The top-level unit of declaration. Each list keeps the order of the
/// source.
#[derive(Debug, PartialEq, Eq)]
pub struct Namespace {
    pub name: String,
    pub typedefs: Vec<Typedef>,
    pub unions: Vec<Union>,
    pub enums: Vec<Enum>,
    pub structs: Vec<Struct>,
}

/// The view of a `Namespace`.
pub struct NamespaceView {
    pub name: Seq<char>,
    pub typedefs: Seq<TypedefView>,
    pub unions: Seq<UnionView>,
    pub enums: Seq<EnumView>,
    pub structs: Seq<StructView>,
}

impl View for Namespace {
    type V = NamespaceView;

    open spec fn view(&self) -> NamespaceView {
        NamespaceView {
            name: self.name@,
            typedefs: views(self.typedefs@),
            unions: views(self.unions@),
            enums: views(self.enums@),
            structs: views(self.structs@),
        }
    }
}

impl Clone for Namespace {
    fn clone(&self) -> (r: Self)
        ensures
            r@ == self@,
    {
        let mut typedefs: Vec<Typedef> = Vec::new();
        let mut i: usize = 0;
        while i < self.typedefs.len()
            invariant
                i <= self.typedefs.len(),
                typedefs@.len() == i,
                forall|q: int| 0 <= q < i ==> (#[trigger] typedefs@[q])@ == self.typedefs@[q]@,
            decreases self.typedefs.len() - i,
        {
            typedefs.push(self.typedefs[i].clone());
            i = i + 1;
        }
        let mut unions: Vec<Union> = Vec::new();
        let mut j: usize = 0;
        while j < self.unions.len()
            invariant
                j <= self.unions.len(),
                unions@.len() == j,
                forall|q: int| 0 <= q < j ==> (#[trigger] unions@[q])@ == self.unions@[q]@,
            decreases self.unions.len() - j,
        {
            unions.push(self.unions[j].clone());
            j = j + 1;
        }
        let mut enums: Vec<Enum> = Vec::new();
        let mut k: usize = 0;
        while k < self.enums.len()
            invariant
                k <= self.enums.len(),
                enums@.len() == k,
                forall|q: int| 0 <= q < k ==> (#[trigger] enums@[q])@ == self.enums@[q]@,
            decreases self.enums.len() - k,
        {
            enums.push(self.enums[k].clone());
            k = k + 1;
        }
        let mut structs: Vec<Struct> = Vec::new();
        let mut m: usize = 0;
        while m < self.structs.len()
            invariant
                m <= self.structs.len(),
                structs@.len() == m,
                forall|q: int| 0 <= q < m ==> (#[trigger] structs@[q])@ == self.structs@[q]@,
            decreases self.structs.len() - m,
        {
            structs.push(self.structs[m].clone());
            m = m + 1;
        }
        proof {
            assert(views(typedefs@) =~= views(self.typedefs@));
            assert(views(unions@) =~= views(self.unions@));
            assert(views(enums@) =~= views(self.enums@));
            assert(views(structs@) =~= views(self.structs@));
        }
        Namespace { name: self.name.clone(), typedefs, unions, enums, structs }
    }
}

impl Default for Namespace {
    fn default() -> (r: Self)
        ensures
            r@ == (NamespaceView {
                name: Seq::empty(),
                typedefs: Seq::empty(),
                unions: Seq::empty(),
                enums: Seq::empty(),
                structs: Seq::empty(),
            }),
    {
        let r = Namespace {
            name: String::new(),
            typedefs: Vec::new(),
            unions: Vec::new(),
            enums: Vec::new(),
            structs: Vec::new(),
        };
        proof {
            assert(views(r.typedefs@) == Seq::<TypedefView>::empty());
            assert(views(r.unions@) == Seq::<UnionView>::empty());
            assert(views(r.enums@) == Seq::<EnumView>::empty());
            assert(views(r.structs@) == Seq::<StructView>::empty());
        }
        r
    }
}

} // verus!
