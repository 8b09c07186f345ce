//! The schema flattener: every field of a table is expanded into a tree of
//! columns whose leaves are primitives.

use crate::ast::{
    views, Def, DefView, Error, Namespace, NamespaceView, Struct, StructView, TypedefView,
};
use crate::text::{contains_text, same_text, text_among};
use vstd::hash_map::StringHashMap;
use vstd::prelude::*;

verus! {

/// The primitive kinds a leaf column can have.
#[derive(Clone, Copy, Debug, PartialEq, Eq, Structural)]
pub enum BasicType {
    Boolean,
    String,
    Opaque,
    Int,
    UnsignedInt,
    Hyper,
    UnsignedHyper,
    Float,
    Double,
}

/// One field, fully expanded.
#[derive(Debug, PartialEq, Eq)]
pub enum Column {
    Basic { name: String, typ: BasicType },
    Array { name: String, fixed: bool, length: u32, child: Box<Column> },
    Struct { name: String, children: Vec<Column> },
    Typedef { name: String, child: Box<Column> },
}

/// The view of a `Column`.
pub enum ColumnView {
    Basic { name: Seq<char>, typ: BasicType },
    Array { name: Seq<char>, fixed: bool, length: u32, child: Box<ColumnView> },
    Struct { name: Seq<char>, children: Seq<ColumnView> },
    Typedef { name: Seq<char>, child: Box<ColumnView> },
}

/// The view of a column: the same tree over `Seq`.
pub open spec fn column_view(c: Column) -> ColumnView
    decreases c,
{
    match c {
        Column::Basic { name, typ } => ColumnView::Basic { name: name@, typ },
        Column::Array { name, fixed, length, child } => ColumnView::Array {
            name: name@,
            fixed,
            length,
            child: Box::new(column_view(*child)),
        },
        Column::Struct { name, children } => ColumnView::Struct {
            name: name@,
            children: Seq::new(
                children@.len(),
                |i: int|
                    if 0 <= i < children@.len() {
                        column_view(children@[i])
                    } else {
                        arbitrary()
                    },
            ),
        },
        Column::Typedef { name, child } => ColumnView::Typedef {
            name: name@,
            child: Box::new(column_view(*child)),
        },
    }
}

impl View for Column {
    type V = ColumnView;

    open spec fn view(&self) -> ColumnView {
        column_view(*self)
    }
}

/// A struct that was marked as a table, with its fields as columns.
#[derive(Debug, PartialEq, Eq)]
pub struct Table {
    pub name: String,
    pub columns: Vec<Column>,
}

/// The view of a `Table`.
pub struct TableView {
    pub name: Seq<char>,
    pub columns: Seq<ColumnView>,
}

impl View for Table {
    type V = TableView;

    open spec fn view(&self) -> TableView {
        TableView { name: self.name@, columns: views(self.columns@) }
    }
}

/// The tables of a source, in declaration order.
#[derive(Debug, PartialEq, Eq)]
pub struct Schema {
    pub tables: Vec<Table>,
}

/// The view of a `Schema`.
pub struct SchemaView {
    pub tables: Seq<TableView>,
}

impl View for Schema {
    type V = SchemaView;

    open spec fn view(&self) -> SchemaView {
        SchemaView { tables: views(self.tables@) }
    }
}

/// The primitive kind that an IDL name stands for, if it is a primitive.
pub open spec fn basic_type_of(name: Seq<char>) -> Option<BasicType> {
    if name == "boolean"@ {
        Some(BasicType::Boolean)
    } else if name == "string"@ {
        Some(BasicType::String)
    } else if name == "opaque"@ {
        Some(BasicType::Opaque)
    } else if name == "int"@ {
        Some(BasicType::Int)
    } else if name == "unsigned int"@ {
        Some(BasicType::UnsignedInt)
    } else if name == "hyper"@ {
        Some(BasicType::Hyper)
    } else if name == "unsigned hyper"@ {
        Some(BasicType::UnsignedHyper)
    } else if name == "float"@ {
        Some(BasicType::Float)
    } else if name == "double"@ {
        Some(BasicType::Double)
    } else {
        None
    }
}

/// Maps a primitive name to its kind; any other name is a resolution
/// error.
pub fn string_to_basic_type(typ: &str) -> (r: Result<BasicType, Error>)
    ensures
        r == match basic_type_of(typ@) {
            Some(t) => Ok::<BasicType, Error>(t),
            None => Err(Error::Resolution),
        },
{
    if same_text(typ, "boolean") {
        Ok(BasicType::Boolean)
    } else if same_text(typ, "string") {
        Ok(BasicType::String)
    } else if same_text(typ, "opaque") {
        Ok(BasicType::Opaque)
    } else if same_text(typ, "int") {
        Ok(BasicType::Int)
    } else if same_text(typ, "unsigned int") {
        Ok(BasicType::UnsignedInt)
    } else if same_text(typ, "hyper") {
        Ok(BasicType::Hyper)
    } else if same_text(typ, "unsigned hyper") {
        Ok(BasicType::UnsignedHyper)
    } else if same_text(typ, "float") {
        Ok(BasicType::Float)
    } else if same_text(typ, "double") {
        Ok(BasicType::Double)
    } else {
        Err(Error::Resolution)
    }
}

/// The primitives that are sequences in themselves: a dimension on them
/// bounds their length and makes no array of them.
pub open spec fn is_byte_sequence(name: Seq<char>) -> bool {
    name == "string"@ || name == "opaque"@
}

/// The column that a field expands to.
///
/// Each step takes one layer off. An occurrence of a typedef is a typedef
/// column around what the typedef stands for. A dimension is an array
/// column around the occurrence without it, on a typedef, on a struct and
/// on every primitive but `string` and `opaque`, whose dimension bounds
/// their length. An occurrence of a struct is a struct column with one
/// child for each field. A typedef is looked for before a struct, so a
/// name that is both is a typedef.
///
/// `available` holds the declared names that are not being expanded
/// already; a typedef or struct that is met again inside its own expansion
/// is rejected.
pub open spec fn column_of(
    def: DefView,
    structs: Map<Seq<char>, StructView>,
    typedefs: Map<Seq<char>, DefView>,
    available: Set<Seq<char>>,
) -> Result<ColumnView, Error>
    decreases available.len(), (if def.array_size != 0 { 1nat } else { 0nat }), 0nat,
    when available.finite()
{
    if typedefs.contains_key(def.type_id) {
        if def.array_size != 0 {
            match column_of(def.element(), structs, typedefs, available) {
                Ok(inner) => Ok(
                    ColumnView::Typedef {
                        name: def.name,
                        child: Box::new(
                            ColumnView::Array {
                                name: def.name,
                                fixed: def.fixed_array,
                                length: def.array_size as u32,
                                child: Box::new(inner),
                            },
                        ),
                    },
                ),
                Err(e) => Err(e),
            }
        } else if !available.contains(def.type_id) {
            Err(Error::Recursion)
        } else {
            match column_of(
                typedefs[def.type_id],
                structs,
                typedefs,
                available.remove(def.type_id),
            ) {
                Ok(inner) => Ok(ColumnView::Typedef { name: def.name, child: Box::new(inner) }),
                Err(e) => Err(e),
            }
        }
    } else if structs.contains_key(def.type_id) && def.array_size != 0 {
        match column_of(def.element(), structs, typedefs, available) {
            Ok(inner) => Ok(
                ColumnView::Array {
                    name: def.name,
                    fixed: def.fixed_array,
                    length: def.array_size as u32,
                    child: Box::new(inner),
                },
            ),
            Err(e) => Err(e),
        }
    } else if structs.contains_key(def.type_id) {
        if !available.contains(def.type_id) {
            Err(Error::Recursion)
        } else {
            match columns_of(
                structs[def.type_id].props,
                structs,
                typedefs,
                available.remove(def.type_id),
            ) {
                Ok(children) => Ok(ColumnView::Struct { name: def.name, children }),
                Err(e) => Err(e),
            }
        }
    } else if def.array_size != 0 && !is_byte_sequence(def.type_id) {
        match column_of(def.element(), structs, typedefs, available) {
            Ok(inner) => Ok(
                ColumnView::Array {
                    name: def.name,
                    fixed: def.fixed_array,
                    length: def.array_size as u32,
                    child: Box::new(inner),
                },
            ),
            Err(e) => Err(e),
        }
    } else {
        match basic_type_of(def.type_id) {
            Some(typ) => Ok(ColumnView::Basic { name: def.name, typ }),
            None => Err(Error::Resolution),
        }
    }
}

/// The columns of a list of fields, in order; the first field that fails
/// decides the error.
pub open spec fn columns_of(
    props: Seq<DefView>,
    structs: Map<Seq<char>, StructView>,
    typedefs: Map<Seq<char>, DefView>,
    available: Set<Seq<char>>,
) -> Result<Seq<ColumnView>, Error>
    decreases available.len(), 2nat, props.len(),
    when available.finite()
{
    if props.len() == 0 {
        Ok(Seq::empty())
    } else {
        match columns_of(props.drop_last(), structs, typedefs, available) {
            Err(e) => Err(e),
            Ok(before) => match column_of(props.last(), structs, typedefs, available) {
                Err(e) => Err(e),
                Ok(c) => Ok(before.push(c)),
            },
        }
    }
}


/// The structs of a list of namespaces, in order.
pub open spec fn declared_structs(namespaces: Seq<NamespaceView>) -> Seq<StructView>
    decreases namespaces.len(),
{
    if namespaces.len() == 0 {
        Seq::empty()
    } else {
        declared_structs(namespaces.drop_last()) + namespaces.last().structs
    }
}

/// The typedefs of a list of namespaces, in order: of each its occurrence.
pub open spec fn declared_typedefs(namespaces: Seq<NamespaceView>) -> Seq<DefView>
    decreases namespaces.len(),
{
    if namespaces.len() == 0 {
        Seq::empty()
    } else {
        declared_typedefs(namespaces.drop_last()) + namespaces.last().typedefs.map_values(
            |t: TypedefView| t.def,
        )
    }
}

/// Structs by name. Where a name is declared more than once, the last
/// declaration stands.
pub open spec fn structs_by_name(structs: Seq<StructView>) -> Map<Seq<char>, StructView>
    decreases structs.len(),
{
    if structs.len() == 0 {
        Map::empty()
    } else {
        structs_by_name(structs.drop_last()).insert(structs.last().name, structs.last())
    }
}

/// Typedefs by alias. Where an alias is declared more than once, the last
/// declaration stands.
pub open spec fn typedefs_by_name(typedefs: Seq<DefView>) -> Map<Seq<char>, DefView>
    decreases typedefs.len(),
{
    if typedefs.len() == 0 {
        Map::empty()
    } else {
        typedefs_by_name(typedefs.drop_last()).insert(typedefs.last().name, typedefs.last())
    }
}

/// The column that a field expands to when nothing is being expanded yet.
pub open spec fn flatten(
    def: DefView,
    structs: Map<Seq<char>, StructView>,
    typedefs: Map<Seq<char>, DefView>,
) -> Result<ColumnView, Error> {
    column_of(def, structs, typedefs, structs.dom().union(typedefs.dom()))
}

/// The columns of a table's fields.
pub open spec fn flatten_all(
    props: Seq<DefView>,
    structs: Map<Seq<char>, StructView>,
    typedefs: Map<Seq<char>, DefView>,
) -> Result<Seq<ColumnView>, Error> {
    columns_of(props, structs, typedefs, structs.dom().union(typedefs.dom()))
}

/// A result with its column seen through its view.
pub open spec fn column_result(r: Result<Column, Error>) -> Result<ColumnView, Error> {
    match r {
        Ok(c) => Ok(c@),
        Err(e) => Err(e),
    }
}

/// The declarations that a field can refer to, by name.
pub struct Catalog {
    structs: StringHashMap<Struct>,
    typedefs: StringHashMap<Def>,
}

impl Catalog {
    #[verifier::type_invariant]
    spec fn finite(self) -> bool {
        self.structs@.dom().finite() && self.typedefs@.dom().finite()
    }

    /// The structs in the catalog, by name.
    pub closed spec fn structs(self) -> Map<Seq<char>, StructView> {
        self.structs@.map_values(|s: Struct| s@)
    }

    /// The typedefs in the catalog, by alias.
    pub closed spec fn typedefs(self) -> Map<Seq<char>, DefView> {
        self.typedefs@.map_values(|d: Def| d@)
    }

    /// Collects the structs and typedefs of every namespace before anything
    /// is resolved, so that a reference may precede the declaration it
    /// names.
    pub fn new(namespaces: &Vec<Namespace>) -> (r: Catalog)
        ensures
            r.structs() == structs_by_name(declared_structs(views(namespaces@))),
            r.typedefs() == typedefs_by_name(declared_typedefs(views(namespaces@))),
    {
        let mut structs: StringHashMap<Struct> = StringHashMap::new();
        let mut typedefs: StringHashMap<Def> = StringHashMap::new();
        let ghost all = views(namespaces@);
        let mut i: usize = 0;
        while i < namespaces.len()
            invariant
                i <= namespaces.len(),
                all == views(namespaces@),
                structs@.dom().finite(),
                typedefs@.dom().finite(),
                structs@.map_values(|s: Struct| s@) == structs_by_name(
                    declared_structs(all.take(i as int)),
                ),
                typedefs@.map_values(|d: Def| d@) == typedefs_by_name(
                    declared_typedefs(all.take(i as int)),
                ),
            decreases namespaces.len() - i,
        {
            let ns = &namespaces[i];
            let ghost before_structs = declared_structs(all.take(i as int));
            let ghost before_typedefs = declared_typedefs(all.take(i as int));
            let ghost ns_typedefs = ns@.typedefs.map_values(|t: TypedefView| t.def);
            let mut j: usize = 0;
            while j < ns.structs.len()
                invariant
                    j <= ns.structs.len(),
                    structs@.dom().finite(),
                    structs@.map_values(|s: Struct| s@) == structs_by_name(
                        before_structs + ns@.structs.take(j as int),
                    ),
                decreases ns.structs.len() - j,
            {
                let st = &ns.structs[j];
                let ghost old_map = structs@;
                structs.insert(st.name.clone(), st.clone());
                proof {
                    let a = before_structs + ns@.structs.take(j as int);
                    let b = before_structs + ns@.structs.take(j + 1);
                    assert(ns@.structs[j as int] == st@);
                    assert(b.drop_last() == a);
                    assert(b.last() == st@);
                    assert(structs@.map_values(|s: Struct| s@) =~= old_map.map_values(
                        |s: Struct| s@,
                    ).insert(st@.name, st@));
                }
                j = j + 1;
            }
            let mut k: usize = 0;
            while k < ns.typedefs.len()
                invariant
                    k <= ns.typedefs.len(),
                    ns_typedefs == ns@.typedefs.map_values(|t: TypedefView| t.def),
                    typedefs@.dom().finite(),
                    typedefs@.map_values(|d: Def| d@) == typedefs_by_name(
                        before_typedefs + ns_typedefs.take(k as int),
                    ),
                decreases ns.typedefs.len() - k,
            {
                let td = &ns.typedefs[k];
                let ghost old_map = typedefs@;
                typedefs.insert(td.def.name.clone(), td.def.clone());
                proof {
                    let a = before_typedefs + ns_typedefs.take(k as int);
                    let b = before_typedefs + ns_typedefs.take(k + 1);
                    assert(ns_typedefs[k as int] == td.def@);
                    assert(b.drop_last() == a);
                    assert(b.last() == td.def@);
                    assert(typedefs@.map_values(|d: Def| d@) =~= old_map.map_values(
                        |d: Def| d@,
                    ).insert(td.def@.name, td.def@));
                }
                k = k + 1;
            }
            proof {
                assert(all.take(i + 1).drop_last() == all.take(i as int));
                assert(all.take(i + 1).last() == ns@);
                assert(ns@.structs.take(j as int) == ns@.structs);
                assert(ns_typedefs.take(k as int) == ns_typedefs);
            }
            i = i + 1;
        }
        proof {
            assert(all.take(i as int) == all);
        }
        Catalog { structs, typedefs }
    }
}


/// An error among the first fields of a list is the error of the whole
/// list.
proof fn lemma_columns_error_stays(
    props: Seq<DefView>,
    n: int,
    structs: Map<Seq<char>, StructView>,
    typedefs: Map<Seq<char>, DefView>,
    available: Set<Seq<char>>,
)
    requires
        available.finite(),
        0 <= n <= props.len(),
        columns_of(props.take(n), structs, typedefs, available) is Err,
    ensures
        columns_of(props, structs, typedefs, available) == columns_of(
            props.take(n),
            structs,
            typedefs,
            available,
        ),
    decreases props.len() - n,
{
    if n < props.len() {
        assert(props.take(n + 1).drop_last() == props.take(n));
        lemma_columns_error_stays(props, n + 1, structs, typedefs, available);
    } else {
        assert(props.take(n) == props);
    }
}

/// The length a column records for an array dimension.
fn dimension(array_size: i32) -> (r: u32)
    ensures
        r == array_size as u32,
{
    #[verifier::truncate]
    (array_size as u32)
}

/// Expands one field. `path` holds the names being expanded, outermost
/// first; `available` is every declared name that is not on it.
#[verifier::loop_isolation(false)]
fn expand(
    def: &Def,
    catalog: &Catalog,
    path: &mut Vec<String>,
    Ghost(available): Ghost<Set<Seq<char>>>,
) -> (r: Result<Column, Error>)
    requires
        available.finite(),
        forall|n: Seq<char>|
            available.contains(n) <==> (catalog.structs().contains_key(n)
                || catalog.typedefs().contains_key(n)) && !text_among(
                views(old(path)@),
                n,
            ),
    ensures
        column_result(r) == column_of(def@, catalog.structs(), catalog.typedefs(), available),
        r is Ok ==> final(path)@ == old(path)@,
    decreases available.len(), (if def.array_size != 0 { 1nat } else { 0nat }), 0nat,
{
    let ghost structs = catalog.structs();
    let ghost typedefs = catalog.typedefs();
    let ghost path0 = path@;
    match catalog.typedefs.get(def.type_id.as_str()) {
        Some(target) => {
            assert(typedefs.contains_key(def@.type_id));
            assert(typedefs[def@.type_id] == target@);
            if def.array_size != 0 {
                let element = Def {
                    name: def.name.clone(),
                    type_id: def.type_id.clone(),
                    fixed_array: def.fixed_array,
                    array_size: 0,
                };
                assert(element@ == def@.element());
                match expand(&element, catalog, path, Ghost(available)) {
                    Err(e) => Err(e),
                    Ok(inner) => {
                        let array = Column::Array {
                            name: def.name.clone(),
                            fixed: def.fixed_array,
                            length: dimension(def.array_size),
                            child: Box::new(inner),
                        };
                        assert(array@ == (ColumnView::Array {
                            name: def@.name,
                            fixed: def@.fixed_array,
                            length: def@.array_size as u32,
                            child: Box::new(inner@),
                        }));
                        Ok(Column::Typedef { name: def.name.clone(), child: Box::new(array) })
                    },
                }
            } else if contains_text(path, def.type_id.as_str()) {
                Err(Error::Recursion)
            } else {
                path.push(def.type_id.clone());
                proof {
                    lemma_path_grows(path0, path@, def.type_id@);
                }
                match expand(target, catalog, path, Ghost(available.remove(def.type_id@))) {
                    Err(e) => Err(e),
                    Ok(inner) => {
                        path.pop();
                        assert(path@ == path0);
                        Ok(Column::Typedef { name: def.name.clone(), child: Box::new(inner) })
                    },
                }
            }
        },
        None => {
            assert(!typedefs.contains_key(def@.type_id));
            match catalog.structs.get(def.type_id.as_str()) {
                Some(st) => {
                    assert(structs.contains_key(def@.type_id));
                    assert(structs[def@.type_id] == st@);
                    if def.array_size != 0 {
                        let element = Def {
                            name: def.name.clone(),
                            type_id: def.type_id.clone(),
                            fixed_array: def.fixed_array,
                            array_size: 0,
                        };
                        assert(element@ == def@.element());
                        return match expand(&element, catalog, path, Ghost(available)) {
                            Err(e) => Err(e),
                            Ok(inner) => Ok(
                                Column::Array {
                                    name: def.name.clone(),
                                    fixed: def.fixed_array,
                                    length: dimension(def.array_size),
                                    child: Box::new(inner),
                                },
                            ),
                        };
                    }
                    if contains_text(path, def.type_id.as_str()) {
                        return Err(Error::Recursion);
                    }
                    path.push(def.type_id.clone());
                    proof {
                        lemma_path_grows(path0, path@, def.type_id@);
                    }
                    let ghost path1 = path@;
                    let ghost inside = available.remove(def.type_id@);
                    let ghost props = st@.props;
                    let mut children: Vec<Column> = Vec::new();
                    let mut i: usize = 0;
                    proof {
                        assert(props.take(0).len() == 0);
                        assert(views(children@) == Seq::<ColumnView>::empty());
                    }
                    while i < st.props.len()
                        invariant
                            i <= st.props.len(),
                            props == views(st.props@),
                            structs == catalog.structs(),
                            typedefs == catalog.typedefs(),
                            path@ == path1,
                            inside.finite(),
                            inside.len() < available.len(),
                            forall|n: Seq<char>|
                                inside.contains(n) <==> (structs.contains_key(n)
                                    || typedefs.contains_key(n)) && !text_among(
                                    views(path1),
                                    n,
                                ),
                            columns_of(props.take(i as int), structs, typedefs, inside) == Ok::<
                                Seq<ColumnView>,
                                Error,
                            >(views(children@)),
                        decreases st.props.len() - i,
                    {
                        proof {
                            assert(props.take(i + 1).drop_last() == props.take(i as int));
                            assert(props.take(i + 1).last() == st.props@[i as int]@);
                        }
                        match expand(&st.props[i], catalog, path, Ghost(inside)) {
                            Err(e) => {
                                proof {
                                    assert(columns_of(
                                        props.take(i + 1),
                                        structs,
                                        typedefs,
                                        inside,
                                    ) == Err::<Seq<ColumnView>, Error>(e));
                                    lemma_columns_error_stays(
                                        props,
                                        i + 1,
                                        structs,
                                        typedefs,
                                        inside,
                                    );
                                }
                                return Err(e);
                            },
                            Ok(c) => {
                                let ghost before = views(children@);
                                children.push(c);
                                assert(views(children@) == before.push(c@));
                            },
                        }
                        i = i + 1;
                    }
                    proof {
                        assert(props.take(i as int) == props);
                    }
                    path.pop();
                    assert(path@ == path0);
                    let column = Column::Struct { name: def.name.clone(), children };
                    proof {
                        assert(column@->Struct_children == views(children@));
                    }
                    Ok(column)
                },
                None => {
                    assert(!structs.contains_key(def@.type_id));
                    let sequence = same_text(def.type_id.as_str(), "string") || same_text(
                        def.type_id.as_str(),
                        "opaque",
                    );
                    if def.array_size != 0 && !sequence {
                        let element = Def {
                            name: def.name.clone(),
                            type_id: def.type_id.clone(),
                            fixed_array: def.fixed_array,
                            array_size: 0,
                        };
                        assert(element@ == def@.element());
                        match expand(&element, catalog, path, Ghost(available)) {
                            Err(e) => Err(e),
                            Ok(inner) => Ok(
                                Column::Array {
                                    name: def.name.clone(),
                                    fixed: def.fixed_array,
                                    length: dimension(def.array_size),
                                    child: Box::new(inner),
                                },
                            ),
                        }
                    } else {
                        match string_to_basic_type(def.type_id.as_str()) {
                            Err(e) => Err(e),
                            Ok(typ) => Ok(Column::Basic { name: def.name.clone(), typ }),
                        }
                    }
                },
            }
        },
    }
}

/// A name pushed on the path is on it afterwards, beside those that were.
proof fn lemma_path_grows(before: Seq<String>, after: Seq<String>, name: Seq<char>)
    requires
        after.len() == before.len() + 1,
        after.drop_last() =~= before,
        after.last()@ == name,
    ensures
        forall|n: Seq<char>|
            text_among(views(after), n) <==> (n == name || text_among(
                views(before),
                n,
            )),
{
    assert forall|n: Seq<char>|
        text_among(views(after), n) <==> (n == name || text_among(
            views(before),
            n,
        )) by {
        if text_among(views(before), n) {
            let i = choose|i: int| 0 <= i < views(before).len() && views(before)[i] == n;
            assert(views(after)[i] == n);
        }
        if n == name {
            assert(views(after)[after.len() - 1] == n);
        }
        if text_among(views(after), n) {
            let i = choose|i: int| 0 <= i < views(after).len() && views(after)[i] == n;
            if i < before.len() {
                assert(views(before)[i] == n);
            }
        }
    }
}

/// Expands one field into a column with no indirection left: typedefs and
/// structs are replaced by what they stand for, array dimensions become
/// array columns, and every leaf is a primitive.
///
/// Fails with `Error::Resolution` where a name is neither declared nor a
/// primitive, and with `Error::Recursion` where a typedef or struct
/// contains itself.
pub fn def_to_column(def: Def, catalog: &Catalog) -> (r: Result<Column, Error>)
    ensures
        column_result(r) == flatten(def@, catalog.structs(), catalog.typedefs()),
{
    let mut path: Vec<String> = Vec::new();
    proof {
        use_type_invariant(catalog);
        assert(catalog.structs().dom() =~= catalog.structs@.dom());
        assert(catalog.typedefs().dom() =~= catalog.typedefs@.dom());
    }
    let ghost all = catalog.structs().dom().union(catalog.typedefs().dom());
    expand(&def, catalog, &mut path, Ghost(all))
}


/// The table that a struct marked as one flattens to.
pub open spec fn table_of(
    table: StructView,
    structs: Map<Seq<char>, StructView>,
    typedefs: Map<Seq<char>, DefView>,
) -> Result<TableView, Error> {
    match flatten_all(table.props, structs, typedefs) {
        Ok(columns) => Ok(TableView { name: table.name, columns }),
        Err(e) => Err(e),
    }
}

/// The tables of a list of structs, in order; the first struct that fails
/// decides the error.
pub open spec fn tables_of(
    tables: Seq<StructView>,
    structs: Map<Seq<char>, StructView>,
    typedefs: Map<Seq<char>, DefView>,
) -> Result<Seq<TableView>, Error>
    decreases tables.len(),
{
    if tables.len() == 0 {
        Ok(Seq::empty())
    } else {
        match tables_of(tables.drop_last(), structs, typedefs) {
            Err(e) => Err(e),
            Ok(before) => match table_of(tables.last(), structs, typedefs) {
                Err(e) => Err(e),
                Ok(t) => Ok(before.push(t)),
            },
        }
    }
}

/// The schema that holds the tables of the given structs.
pub open spec fn schema_of(
    tables: Seq<StructView>,
    structs: Map<Seq<char>, StructView>,
    typedefs: Map<Seq<char>, DefView>,
) -> Result<SchemaView, Error> {
    match tables_of(tables, structs, typedefs) {
        Ok(tables) => Ok(SchemaView { tables }),
        Err(e) => Err(e),
    }
}

/// A result with its schema seen through its view.
pub open spec fn schema_result(r: Result<Schema, Error>) -> Result<SchemaView, Error> {
    match r {
        Ok(s) => Ok(s@),
        Err(e) => Err(e),
    }
}

/// The structs whose name is among `names`, in the order they stand in.
pub open spec fn marked(structs: Seq<StructView>, names: Seq<Seq<char>>) -> Seq<StructView>
    decreases structs.len(),
{
    if structs.len() == 0 {
        Seq::empty()
    } else if text_among(names, structs.last().name) {
        marked(structs.drop_last(), names).push(structs.last())
    } else {
        marked(structs.drop_last(), names)
    }
}

proof fn lemma_tables_error_stays(
    tables: Seq<StructView>,
    n: int,
    structs: Map<Seq<char>, StructView>,
    typedefs: Map<Seq<char>, DefView>,
)
    requires
        0 <= n <= tables.len(),
        tables_of(tables.take(n), structs, typedefs) is Err,
    ensures
        tables_of(tables, structs, typedefs) == tables_of(tables.take(n), structs, typedefs),
    decreases tables.len() - n,
{
    if n < tables.len() {
        assert(tables.take(n + 1).drop_last() == tables.take(n));
        lemma_tables_error_stays(tables, n + 1, structs, typedefs);
    } else {
        assert(tables.take(n) == tables);
    }
}

/// Flattens every field of every table, in declaration order.
pub fn build_schema(catalog: &Catalog, tables: Vec<Struct>) -> (r: Result<Schema, Error>)
    ensures
        schema_result(r) == schema_of(views(tables@), catalog.structs(), catalog.typedefs()),
{
    let ghost structs = catalog.structs();
    let ghost typedefs = catalog.typedefs();
    let ghost all = structs.dom().union(typedefs.dom());
    let ghost wanted = views(tables@);
    proof {
        use_type_invariant(catalog);
        assert(catalog.structs().dom() =~= catalog.structs@.dom());
        assert(catalog.typedefs().dom() =~= catalog.typedefs@.dom());
    }
    let mut built: Vec<Table> = Vec::new();
    let mut i: usize = 0;
    proof {
        assert(wanted.take(0).len() == 0);
        assert(views(built@) == Seq::<TableView>::empty());
    }
    while i < tables.len()
        invariant
            i <= tables.len(),
            wanted == views(tables@),
            structs == catalog.structs(),
            typedefs == catalog.typedefs(),
            all == structs.dom().union(typedefs.dom()),
            all.finite(),
            tables_of(wanted.take(i as int), structs, typedefs) == Ok::<Seq<TableView>, Error>(
                views(built@),
            ),
        decreases tables.len() - i,
    {
        let table = &tables[i];
        let ghost props = table@.props;
        let mut columns: Vec<Column> = Vec::new();
        let mut j: usize = 0;
        proof {
            assert(wanted.take(i + 1).drop_last() == wanted.take(i as int));
            assert(wanted.take(i + 1).last() == table@);
            assert(props.take(0).len() == 0);
            assert(views(columns@) == Seq::<ColumnView>::empty());
        }
        while j < table.props.len()
            invariant
                j <= table.props.len(),
                i < tables.len(),
                props == views(table.props@),
                wanted == views(tables@),
                structs == catalog.structs(),
                typedefs == catalog.typedefs(),
                all == structs.dom().union(typedefs.dom()),
                all.finite(),
                wanted.take(i + 1).drop_last() == wanted.take(i as int),
                wanted.take(i + 1).last().props == props,
                tables_of(wanted.take(i as int), structs, typedefs) is Ok,
                columns_of(props.take(j as int), structs, typedefs, all) == Ok::<
                    Seq<ColumnView>,
                    Error,
                >(views(columns@)),
            decreases table.props.len() - j,
        {
            proof {
                assert(props.take(j + 1).drop_last() == props.take(j as int));
                assert(props.take(j + 1).last() == table.props@[j as int]@);
            }
            match def_to_column(table.props[j].clone(), catalog) {
                Err(e) => {
                    proof {
                        assert(columns_of(props.take(j + 1), structs, typedefs, all) == Err::<
                            Seq<ColumnView>,
                            Error,
                        >(e));
                        lemma_columns_error_stays(props, j + 1, structs, typedefs, all);
                        assert(tables_of(wanted.take(i + 1), structs, typedefs) == Err::<
                            Seq<TableView>,
                            Error,
                        >(e));
                        lemma_tables_error_stays(wanted, i + 1, structs, typedefs);
                    }
                    return Err(e);
                },
                Ok(c) => {
                    let ghost before = views(columns@);
                    columns.push(c);
                    assert(views(columns@) == before.push(c@));
                },
            }
            j = j + 1;
        }
        proof {
            assert(props.take(j as int) == props);
        }
        let ghost before = views(built@);
        let t = Table { name: table.name.clone(), columns };
        built.push(t);
        proof {
            assert(views(built@) == before.push(t@));
        }
        i = i + 1;
    }
    proof {
        assert(wanted.take(i as int) == wanted);
    }
    Ok(Schema { tables: built })
}

/// The schema of a source: the tables of the structs whose name is among
/// `tables`, in declaration order, each flattened against everything that
/// the namespaces declare.
pub open spec fn schema_for(namespaces: Seq<NamespaceView>, tables: Seq<Seq<char>>) -> Result<
    SchemaView,
    Error,
> {
    schema_of(
        marked(declared_structs(namespaces), tables),
        structs_by_name(declared_structs(namespaces)),
        typedefs_by_name(declared_typedefs(namespaces)),
    )
}

/// Flattens the structs named in `tables` against everything the
/// namespaces declare.
///
/// The catalog is complete before the first field is resolved, so a field
/// may name a typedef or struct that is declared after it, or in another
/// namespace.
pub fn generate_schema(namespaces: Vec<Namespace>, tables: &Vec<String>) -> (r: Result<
    Schema,
    Error,
>)
    ensures
        schema_result(r) == schema_for(views(namespaces@), views(tables@)),
{
    let catalog = Catalog::new(&namespaces);
    let ghost all = views(namespaces@);
    let ghost names = views(tables@);
    let mut chosen: Vec<Struct> = Vec::new();
    let mut i: usize = 0;
    proof {
        assert(all.take(0).len() == 0);
        assert(views(chosen@) == Seq::<StructView>::empty());
    }
    while i < namespaces.len()
        invariant
            i <= namespaces.len(),
            all == views(namespaces@),
            names == views(tables@),
            views(chosen@) == marked(declared_structs(all.take(i as int)), names),
        decreases namespaces.len() - i,
    {
        let ns = &namespaces[i];
        let ghost before = declared_structs(all.take(i as int));
        let mut j: usize = 0;
        proof {
            assert(before + ns@.structs.take(0) == before);
        }
        while j < ns.structs.len()
            invariant
                j <= ns.structs.len(),
                names == views(tables@),
                views(chosen@) == marked(before + ns@.structs.take(j as int), names),
            decreases ns.structs.len() - j,
        {
            let st = &ns.structs[j];
            proof {
                let a = before + ns@.structs.take(j as int);
                let b = before + ns@.structs.take(j + 1);
                assert(ns@.structs[j as int] == st@);
                assert(b.drop_last() == a);
                assert(b.last() == st@);
            }
            if contains_text(tables, st.name.as_str()) {
                let ghost old_chosen = views(chosen@);
                chosen.push(st.clone());
                assert(views(chosen@) == old_chosen.push(st@));
            }
            j = j + 1;
        }
        proof {
            assert(all.take(i + 1).drop_last() == all.take(i as int));
            assert(all.take(i + 1).last() == ns@);
            assert(ns@.structs.take(j as int) == ns@.structs);
        }
        i = i + 1;
    }
    proof {
        assert(all.take(i as int) == all);
    }
    build_schema(&catalog, chosen)
}

} // verus!
