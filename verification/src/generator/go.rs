//! What the Go target does to the declarations before it renders them,
//! and what its templates ask about a name.

use crate::ast::{views, DefView, Error, Namespace, NamespaceView, StructView};
use crate::schema::declared_structs;
use crate::generator::{each_def, export_def, map_namespaces, rewrite, Rewrite, TypeMap};
use crate::text::{first_lowered, lower, replace_first, same_text};
use vstd::hash_map::StringHashMap;
use vstd::prelude::*;

verus! {

/// The Go target.
#[derive(Debug, Default)]
pub struct GoGenerator {}

/// Go's spelling of the primitives. `string` is spelled alike in both and
/// has no entry.
pub open spec fn go_types() -> Map<Seq<char>, Seq<char>> {
    map![
        "boolean"@ => "bool"@,
        "opaque"@ => "byte"@,
        "int"@ => "int32"@,
        "unsigned int"@ => "uint32"@,
        "hyper"@ => "int64"@,
        "unsigned hyper"@ => "uint64"@,
        "float"@ => "float32"@,
        "double"@ => "float64"@,
    ]
}

/// Go's table.
pub fn type_map() -> (r: TypeMap)
    ensures
        r@ == go_types(),
{
    let mut table = TypeMap::new();
    table.insert("boolean", "bool");
    table.insert("opaque", "byte");
    table.insert("int", "int32");
    table.insert("unsigned int", "uint32");
    table.insert("hyper", "int64");
    table.insert("unsigned hyper", "uint64");
    table.insert("float", "float32");
    table.insert("double", "float64");
    proof {
        assert(table@ =~= go_types());
    }
    table
}

/// Declarations with the name of every occurrence capitalised, as Go
/// wants of what a package exports.
pub open spec fn exported(namespaces: Seq<NamespaceView>) -> Seq<NamespaceView> {
    namespaces.map_values(|ns: NamespaceView| each_def(ns, |d: DefView| export_def(d)))
}

/// Respells the primitives for Go, then capitalises the name of every
/// typedef, of every field and of every arm.
pub fn process_namespaces(namespaces: Vec<Namespace>) -> (r: Result<Vec<Namespace>, Error>)
    ensures
        r is Ok,
        views(r.unwrap()@) == exported(map_namespaces(views(namespaces@), go_types())),
{
    let table = type_map();
    let mapped = rewrite(&namespaces, &Rewrite::Respell(&table));
    let out = rewrite(&mapped, &Rewrite::Capitalize);
    proof {
        assert(views(mapped@) =~= map_namespaces(views(namespaces@), go_types()));
        assert(views(out@) =~= exported(views(mapped@)));
    }
    Ok(out)
}

/// `value` with its first character in lowercase: the form of a name in
/// a JSON tag. An ASCII letter becomes its small form; a character beyond
/// ASCII becomes what Unicode gives for it, which may be more than one
/// character.
pub fn to_first_lower(value: &str) -> (r: String)
    ensures
        r@ == first_lowered(value@),
{
    if value.unicode_len() == 0 {
        return String::new();
    }
    let first = lower(value.get_char(0));
    replace_first(value, first.as_str())
}

/// Whether a type is Go's `string`.
pub fn eqstr(x: &str) -> (r: bool)
    ensures
        r == (x@ == "string"@),
{
    same_text(x, "string")
}

/// Whether a type is another than Go's `string`.
pub fn neqstr(x: &str) -> (r: bool)
    ensures
        r == (x@ != "string"@),
{
    !same_text(x, "string")
}

/// Whether a type is one of the 64-bit integers, which JSON carries as
/// strings.
pub fn bignum(x: &str) -> (r: bool)
    ensures
        r == (x@ == "uint64"@ || x@ == "int64"@),
{
    same_text(x, "uint64") || same_text(x, "int64")
}

/// Whether a name is empty.
pub fn isvoid(x: &str) -> (r: bool)
    ensures
        r == (x@.len() == 0),
{
    x.unicode_len() == 0
}

/// The names of a list of structs.
pub open spec fn names_of(structs: Seq<StructView>) -> Set<Seq<char>>
    decreases structs.len(),
{
    if structs.len() == 0 {
        Set::empty()
    } else {
        names_of(structs.drop_last()).insert(structs.last().name)
    }
}

/// The names of the structs that the namespaces declare.
pub open spec fn struct_names(namespaces: Seq<NamespaceView>) -> Set<Seq<char>> {
    names_of(declared_structs(namespaces))
}

/// Tells the names of structs from other names, so that a field of a
/// struct type can be rendered as a pointer.
pub struct StructHelper {
    struct_map: StringHashMap<bool>,
}

impl StructHelper {
    /// The names that the helper knows.
    pub closed spec fn names(&self) -> Set<Seq<char>> {
        self.struct_map@.dom()
    }

    /// A helper that knows the structs of the given namespaces.
    pub fn new(namespaces: &Vec<Namespace>) -> (r: StructHelper)
        ensures
            r.names() == struct_names(views(namespaces@)),
    {
        let mut struct_map: StringHashMap<bool> = StringHashMap::new();
        let ghost all = views(namespaces@);
        let mut i: usize = 0;
        proof {
            assert(struct_map@.dom() =~= Set::<Seq<char>>::empty());
        }
        while i < namespaces.len()
            invariant
                i <= namespaces.len(),
                all == views(namespaces@),
                struct_map@.dom() == names_of(declared_structs(all.take(i as int))),
            decreases namespaces.len() - i,
        {
            let ns = &namespaces[i];
            let ghost before = declared_structs(all.take(i as int));
            let mut j: usize = 0;
            proof {
                assert(before + ns@.structs.take(0) == before);
            }
            while j < ns.structs.len()
                invariant
                    j <= ns.structs.len(),
                    struct_map@.dom() == names_of(before + ns@.structs.take(j as int)),
                decreases ns.structs.len() - j,
            {
                let ghost old_names = struct_map@.dom();
                struct_map.insert(ns.structs[j].name.clone(), true);
                proof {
                    let a = before + ns@.structs.take(j as int);
                    let b = before + ns@.structs.take(j + 1);
                    assert(ns@.structs[j as int] == ns.structs@[j as int]@);
                    assert(b.drop_last() == a);
                    assert(b.last() == ns.structs@[j as int]@);
                    assert(struct_map@.dom() =~= old_names.insert(ns.structs@[j as int].name@));
                }
                j = j + 1;
            }
            proof {
                assert(all.take(i + 1).drop_last() == all.take(i as int));
                assert(all.take(i + 1).last() == ns@);
                assert(ns@.structs.take(j as int) == ns@.structs);
            }
            i = i + 1;
        }
        proof {
            assert(all.take(i as int) == all);
        }
        StructHelper { struct_map }
    }

    /// Whether `name` is the name of a struct.
    pub fn knows(&self, name: &str) -> (r: bool)
        ensures
            r == self.names().contains(name@),
    {
        self.struct_map.contains_key(name)
    }

    /// Whether what stands between the quotes of `quoted` is the name of a
    /// struct. A text without two quotes around it names none.
    pub fn knows_quoted(&self, quoted: &str) -> (r: bool)
        ensures
            r == (quoted@.len() >= 2 && self.names().contains(
                quoted@.subrange(1, quoted@.len() - 1),
            )),
    {
        let n = quoted.unicode_len();
        if n < 2 {
            return false;
        }
        self.knows(quoted.substring_char(1, n - 1))
    }
}

} // verus!
