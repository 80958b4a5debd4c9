//! Plain-value model of one managed-object snapshot.
//!
//! The daemon's `GetManagedObjects` reply is a mapping from object path to a
//! mapping from interface name to a mapping from property name to a
//! dynamically typed value.  Here each level is a vector of named entries,
//! kept in discovery order; well-formedness (`ManagedObjectTree::wf`) says
//! the names at each level are distinct, as they are in the wire maps.

use vstd::prelude::*;

verus! {

/// One dynamically typed property value: the kinds the daemon attaches to
/// its objects.  Only string-like values (strings and object paths) take
/// part in parent-link matching; every other kind never matches.
pub enum PropValue {
    Bool(bool),
    UInt(u64),
    Int(i64),
    Str(String),
    ObjectPath(String),
    StrList(Vec<String>),
    Bytes(Vec<u8>),
}

impl PropValue {
    /// The characters this value reads as, if it is string-like.
    ///
    /// Object paths count as string-like: on the wire a parent link is
    /// typed as an object path, and child discovery compares it against a
    /// path given as an ordinary string.
    pub open spec fn as_str_spec(&self) -> Option<Seq<char>> {
        match self {
            PropValue::Str(s) => Some(s@),
            PropValue::ObjectPath(s) => Some(s@),
            _ => None,
        }
    }

    /// Read this value as a string, if it is string-like.
    pub fn as_str(&self) -> (r: Option<&String>)
        ensures
            match r {
                Some(s) => self.as_str_spec() == Some(s@),
                None => self.as_str_spec() is None,
            },
    {
        match self {
            PropValue::Str(s) => Some(s),
            PropValue::ObjectPath(s) => Some(s),
            _ => None,
        }
    }
}

/// One property: a name and its value.
pub struct PropEntry {
    pub name: String,
    pub value: PropValue,
}

/// One interface an object implements, with its properties.
pub struct InterfaceEntry {
    pub name: String,
    pub props: Vec<PropEntry>,
}

/// One object in the snapshot: its path and the interfaces it implements.
pub struct ObjectEntry {
    pub path: String,
    pub interfaces: Vec<InterfaceEntry>,
}

/// One snapshot of the daemon's managed-object tree.
pub struct ManagedObjectTree {
    pub objects: Vec<ObjectEntry>,
}

/// No two properties in the list share a name.
pub open spec fn prop_names_distinct(props: Seq<PropEntry>) -> bool {
    forall|k1: int, k2: int|
        0 <= k1 < k2 < props.len() ==> (#[trigger] props[k1]).name@ != (#[trigger] props[k2]).name@
}

/// No two interfaces in the list share a name.
pub open spec fn interface_names_distinct(ifaces: Seq<InterfaceEntry>) -> bool {
    forall|j1: int, j2: int|
        0 <= j1 < j2 < ifaces.len() ==> (#[trigger] ifaces[j1]).name@ != (#[trigger] ifaces[j2]).name@
}

/// No two objects in the list share a path.
pub open spec fn object_paths_distinct(objs: Seq<ObjectEntry>) -> bool {
    forall|i1: int, i2: int|
        0 <= i1 < i2 < objs.len() ==> (#[trigger] objs[i1]).path@ != (#[trigger] objs[i2]).path@
}

impl InterfaceEntry {
    /// Well-formed: property names are distinct, as keys of the wire map.
    pub open spec fn wf(&self) -> bool {
        prop_names_distinct(self.props@)
    }
}

impl ObjectEntry {
    /// Well-formed: interface names are distinct and each interface is
    /// well-formed.
    pub open spec fn wf(&self) -> bool {
        &&& interface_names_distinct(self.interfaces@)
        &&& forall|j: int| 0 <= j < self.interfaces@.len() ==> (#[trigger] self.interfaces@[j]).wf()
    }
}

impl ManagedObjectTree {
    /// Well-formed: object paths are distinct and each object is
    /// well-formed.  Every snapshot decoded from the wire maps is.
    pub open spec fn wf(&self) -> bool {
        &&& object_paths_distinct(self.objects@)
        &&& forall|i: int| 0 <= i < self.objects@.len() ==> (#[trigger] self.objects@[i]).wf()
    }

    /// The empty snapshot.
    pub fn new() -> (r: Self)
        ensures
            r.objects@.len() == 0,
            r.wf(),
    {
        ManagedObjectTree { objects: Vec::new() }
    }
}

/// The string value of the first property named `key`, if that property is
/// string-like; `None` when no property carries the name or the first one
/// that does is not string-like.  In a well-formed entry list names are
/// distinct, so "first" is the only one.
pub open spec fn lookup_str(props: Seq<PropEntry>, key: Seq<char>) -> Option<Seq<char>>
    decreases props.len(),
{
    if props.len() == 0 {
        None
    } else if props[0].name@ == key {
        props[0].value.as_str_spec()
    } else {
        lookup_str(props.drop_first(), key)
    }
}

impl InterfaceEntry {
    /// Look up a property by name and read it as a string.
    ///
    /// A property that exists but is not string-like gives `None`, the same
    /// as an absent property: type mismatches are non-matches, never errors.
    pub fn get_str(&self, key: &str) -> (r: Option<String>)
        ensures
            match r {
                Some(s) => lookup_str(self.props@, key@) == Some(s@),
                None => lookup_str(self.props@, key@) is None,
            },
    {
        let key_owned: String = key.to_owned();
        let n = self.props.len();
        let mut i: usize = 0;
        proof {
            assert(self.props@.skip(0) =~= self.props@);
        }
        while i < n
            invariant
                n == self.props@.len(),
                0 <= i <= n,
                key_owned@ == key@,
                lookup_str(self.props@, key@) == lookup_str(self.props@.skip(i as int), key@),
            decreases n - i,
        {
            proof {
                assert(self.props@.skip(i as int)[0] == self.props@[i as int]);
                assert(self.props@.skip(i as int).drop_first() =~= self.props@.skip(i + 1));
            }
            if self.props[i].name == key_owned {
                return match self.props[i].value.as_str() {
                    Some(s) => Some(s.clone()),
                    None => None,
                };
            }
            i = i + 1;
        }
        None
    }
}

} // verus!
