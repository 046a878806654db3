//! The runtime type catalog: descriptors of the registered data types,
//! looked up by short name or by fully-qualified path.
//!
//! A lookup miss is never an error: the caller skips the entry.  Before any
//! decoding the catalog is topped up with a small set of well-known container
//! types that nothing else in a running process may have registered.

use vstd::prelude::*;
use crate::text::str_eq;

verus! {

/// A registered type: its short name, its fully-qualified path, and whether
/// an instance of it can be inserted into the entity store.
pub struct TypeDescriptor {
    pub short_name: String,
    pub type_path: String,
    pub insertable: bool,
}

/// The first descriptor whose short name is `name`.
pub open spec fn find_short(descs: Seq<TypeDescriptor>, name: Seq<char>) -> Option<TypeDescriptor>
    decreases descs.len(),
{
    if descs.len() <= 0 {
        None
    } else if descs[0].short_name@ == name {
        Some(descs[0])
    } else {
        find_short(descs.skip(1), name)
    }
}

/// The first descriptor whose fully-qualified path is `path`.
pub open spec fn find_path(descs: Seq<TypeDescriptor>, path: Seq<char>) -> Option<TypeDescriptor>
    decreases descs.len(),
{
    if descs.len() <= 0 {
        None
    } else if descs[0].type_path@ == path {
        Some(descs[0])
    } else {
        find_path(descs.skip(1), path)
    }
}

/// Some descriptor carries the path `path`.
pub open spec fn has_path(descs: Seq<TypeDescriptor>, path: Seq<char>) -> bool {
    exists|j: int| 0 <= j < descs.len() && descs[j].type_path@ == path
}

/// `d` has exactly these fields.
pub open spec fn desc_is(
    d: TypeDescriptor,
    short: Seq<char>,
    path: Seq<char>,
    insertable: bool,
) -> bool {
    d.short_name@ == short && d.type_path@ == path && d.insertable == insertable
}

/// A path lookup succeeds exactly when some descriptor carries the path.
pub proof fn lemma_find_path_characterizes(descs: Seq<TypeDescriptor>, path: Seq<char>)
    ensures
        (find_path(descs, path) is Some) <==> has_path(descs, path),
    decreases descs.len(),
{
    if descs.len() > 0 {
        lemma_find_path_characterizes(descs.skip(1), path);
        if has_path(descs, path) {
            let j = choose|j: int| 0 <= j < descs.len() && descs[j].type_path@ == path;
            if j > 0 {
                assert(descs.skip(1)[j - 1] == descs[j]);
                assert(has_path(descs.skip(1), path));
            }
        }
        if has_path(descs.skip(1), path) {
            let j = choose|j: int| 0 <= j < descs.skip(1).len() && descs.skip(1)[j].type_path@
                == path;
            assert(descs[j + 1] == descs.skip(1)[j]);
            assert(has_path(descs, path));
        }
    }
}

/// The catalog itself: the registered descriptors, in registration order.
/// An earlier registration shadows a later one with the same name.
pub struct TypeCatalog {
    pub descriptors: Vec<TypeDescriptor>,
}

impl TypeCatalog {
    /// An empty catalog.
    pub fn new() -> (r: TypeCatalog)
        ensures
            r.descriptors@.len() == 0,
    {
        TypeCatalog { descriptors: Vec::new() }
    }

    /// Registers one more type.
    pub fn register(&mut self, d: TypeDescriptor)
        ensures
            final(self).descriptors@ == old(self).descriptors@.push(d),
    {
        self.descriptors.push(d);
    }

    /// Looks a descriptor up by its short name; a miss means the entry is
    /// skipped, never that the pipeline fails.
    pub fn lookup_by_short_name(&self, name: &str) -> (r: Option<&TypeDescriptor>)
        ensures
            (r is Some) <==> (find_short(self.descriptors@, name@) is Some),
            r is Some ==> *r.unwrap() == find_short(self.descriptors@, name@).unwrap(),
    {
        let n = self.descriptors.len();
        let mut i: usize = 0;
        proof {
            assert(self.descriptors@.skip(0) =~= self.descriptors@);
        }
        while i < n
            invariant
                i <= n,
                n == self.descriptors@.len(),
                find_short(self.descriptors@, name@) == find_short(
                    self.descriptors@.skip(i as int),
                    name@,
                ),
            decreases n - i,
        {
            if str_eq(self.descriptors[i].short_name.as_str(), name) {
                return Some(&self.descriptors[i]);
            }
            proof {
                assert(self.descriptors@.skip(i as int).skip(1) =~= self.descriptors@.skip(
                    i + 1,
                ));
            }
            i += 1;
        }
        None
    }

    /// Looks a descriptor up by its fully-qualified path.
    pub fn lookup_by_full_path(&self, path: &str) -> (r: Option<&TypeDescriptor>)
        ensures
            (r is Some) <==> (find_path(self.descriptors@, path@) is Some),
            r is Some ==> *r.unwrap() == find_path(self.descriptors@, path@).unwrap(),
    {
        let n = self.descriptors.len();
        let mut i: usize = 0;
        proof {
            assert(self.descriptors@.skip(0) =~= self.descriptors@);
        }
        while i < n
            invariant
                i <= n,
                n == self.descriptors@.len(),
                find_path(self.descriptors@, path@) == find_path(
                    self.descriptors@.skip(i as int),
                    path@,
                ),
            decreases n - i,
        {
            if str_eq(self.descriptors[i].type_path.as_str(), path) {
                return Some(&self.descriptors[i]);
            }
            proof {
                assert(self.descriptors@.skip(i as int).skip(1) =~= self.descriptors@.skip(
                    i + 1,
                ));
            }
            i += 1;
        }
        None
    }
}

/// Path of the well-known sequence-of-strings container type.
pub open spec fn seq_strings_path() -> Seq<char> {
    "alloc::vec::Vec<alloc::string::String>"@
}

/// Short name of the well-known sequence-of-strings container type.
pub open spec fn seq_strings_short() -> Seq<char> {
    "Vec<String>"@
}

/// Path of the well-known string-to-sequence-of-strings mapping type.
pub open spec fn map_strings_path() -> Seq<char> {
    "std::collections::HashMap<alloc::string::String, alloc::vec::Vec<alloc::string::String>>"@
}

/// Short name of the well-known string-to-sequence-of-strings mapping type.
pub open spec fn map_strings_short() -> Seq<char> {
    "HashMap<String, Vec<String>>"@
}

/// How a catalog relates to itself after the well-known container types
/// have been topped up: the old descriptors stand unchanged, each missing
/// container is appended once, and nothing changes when both are present.
pub open spec fn ensured(base: Seq<TypeDescriptor>, cur: Seq<TypeDescriptor>) -> bool {
    let n1: int = if has_path(base, seq_strings_path()) {
        0
    } else {
        1
    };
    let n2: int = if has_path(base, map_strings_path()) {
        0
    } else {
        1
    };
    &&& cur.len() == base.len() + n1 + n2
    &&& forall|i: int| 0 <= i < base.len() ==> cur[i] == base[i]
    &&& (!has_path(base, seq_strings_path()) ==> desc_is(
        cur[base.len() as int],
        seq_strings_short(),
        seq_strings_path(),
        false,
    ))
    &&& (!has_path(base, map_strings_path()) ==> desc_is(
        cur[base.len() + n1],
        map_strings_short(),
        map_strings_path(),
        false,
    ))
    &&& has_path(cur, seq_strings_path())
    &&& has_path(cur, map_strings_path())
    &&& (n1 == 0 && n2 == 0 ==> cur == base)
}

impl TypeCatalog {
    /// Registers the well-known container types if they are absent, so that
    /// common metadata shapes deserialize even when nothing else in the
    /// process referenced them.  Idempotent: a second call changes nothing.
    pub fn ensure_registered(&mut self)
        ensures
            ensured(old(self).descriptors@, final(self).descriptors@),
    {
        let ghost base = self.descriptors@;
        proof {
            reveal_strlit("alloc::vec::Vec<alloc::string::String>");
            reveal_strlit(
                "std::collections::HashMap<alloc::string::String, alloc::vec::Vec<alloc::string::String>>",
            );
            assert(seq_strings_path().len() != map_strings_path().len());
            lemma_find_path_characterizes(self.descriptors@, seq_strings_path());
        }
        let missing_seq = self.lookup_by_full_path(
            "alloc::vec::Vec<alloc::string::String>",
        ).is_none();
        if missing_seq {
            self.register(
                TypeDescriptor {
                    short_name: String::from_str("Vec<String>"),
                    type_path: String::from_str("alloc::vec::Vec<alloc::string::String>"),
                    insertable: false,
                },
            );
        }
        let ghost mid = self.descriptors@;
        proof {
            lemma_find_path_characterizes(mid, map_strings_path());
            if has_path(mid, map_strings_path()) && !has_path(base, map_strings_path()) {
                let j = choose|j: int|
                    0 <= j < mid.len() && mid[j].type_path@ == map_strings_path();
                assert(j < base.len() ==> base[j] == mid[j]);
                assert(false);
            }
            if has_path(base, map_strings_path()) {
                let j = choose|j: int|
                    0 <= j < base.len() && base[j].type_path@ == map_strings_path();
                assert(mid[j] == base[j]);
                assert(has_path(mid, map_strings_path()));
            }
        }
        let missing_map = self.lookup_by_full_path(
            "std::collections::HashMap<alloc::string::String, alloc::vec::Vec<alloc::string::String>>",
        ).is_none();
        if missing_map {
            self.register(
                TypeDescriptor {
                    short_name: String::from_str("HashMap<String, Vec<String>>"),
                    type_path: String::from_str(
                        "std::collections::HashMap<alloc::string::String, alloc::vec::Vec<alloc::string::String>>",
                    ),
                    insertable: false,
                },
            );
        }
        proof {
            let cur = self.descriptors@;
            if missing_seq {
                assert(cur[base.len() as int].type_path@ == seq_strings_path());
                assert(has_path(cur, seq_strings_path()));
            } else {
                let j = choose|j: int|
                    0 <= j < base.len() && base[j].type_path@ == seq_strings_path();
                assert(cur[j] == base[j]);
                assert(has_path(cur, seq_strings_path()));
            }
            if missing_map {
                let p: int = if missing_seq {
                    base.len() as int + 1
                } else {
                    base.len() as int
                };
                assert(cur[p].type_path@ == map_strings_path());
                assert(has_path(cur, map_strings_path()));
            } else {
                let j = choose|j: int|
                    0 <= j < base.len() && base[j].type_path@ == map_strings_path();
                assert(cur[j] == base[j]);
                assert(has_path(cur, map_strings_path()));
            }
            if !missing_seq && !missing_map {
                assert(cur =~= base);
            }
        }
    }
}

} // verus!
