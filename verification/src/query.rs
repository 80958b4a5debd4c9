//! Filtering a snapshot into parent/child relationships.
//!
//! Two query shapes cover all discovery in the BlueZ object model:
//! which paths implement a given interface (adapter discovery), and which
//! paths carry a property of a given name whose string value equals a given
//! parent path (devices under an adapter, services under a device,
//! characteristics under a service, descriptors under a characteristic).
//!
//! Both queries keep the snapshot's order and collapse an empty result to
//! `None`: callers historically distinguish nothing by `Some(empty)`, so it
//! never occurs.

use vstd::prelude::*;

use crate::tree::InterfaceEntry;
use crate::tree::ManagedObjectTree;
use crate::tree::ObjectEntry;
use crate::tree::lookup_str;

verus! {

/// Does some interface in the list carry this name?
pub open spec fn has_interface_named(ifaces: Seq<InterfaceEntry>, name: Seq<char>) -> bool {
    exists|j: int| 0 <= j < ifaces.len() && ifaces[j].name@ == name
}

/// Does some interface in the list carry a property named `prop` whose
/// string value is `parent`?  The lookup is by property name alone, not
/// scoped to any particular interface, matching the daemon's flat layout.
pub open spec fn links_to_parent(
    ifaces: Seq<InterfaceEntry>,
    parent: Seq<char>,
    prop: Seq<char>,
) -> bool {
    exists|j: int| 0 <= j < ifaces.len() && lookup_str(ifaces[j].props@, prop) == Some(parent)
}

/// The paths of the objects implementing `name`, in snapshot order.
pub open spec fn paths_with_interface(objs: Seq<ObjectEntry>, name: Seq<char>) -> Seq<Seq<char>>
    decreases objs.len(),
{
    if objs.len() == 0 {
        Seq::empty()
    } else {
        let prefix = paths_with_interface(objs.drop_last(), name);
        if has_interface_named(objs.last().interfaces@, name) {
            prefix.push(objs.last().path@)
        } else {
            prefix
        }
    }
}

/// The paths of the objects linking to `parent` through a string property
/// named `prop`, in snapshot order.
pub open spec fn child_paths(
    objs: Seq<ObjectEntry>,
    parent: Seq<char>,
    prop: Seq<char>,
) -> Seq<Seq<char>>
    decreases objs.len(),
{
    if objs.len() == 0 {
        Seq::empty()
    } else {
        let prefix = child_paths(objs.drop_last(), parent, prop);
        if links_to_parent(objs.last().interfaces@, parent, prop) {
            prefix.push(objs.last().path@)
        } else {
            prefix
        }
    }
}

/// The character sequences a list of strings reads as.
pub open spec fn path_views(v: Seq<String>) -> Seq<Seq<char>> {
    v.map_values(|s: String| s@)
}

/// The empty-collapses-to-absent convention applied to a path list.
pub open spec fn collapse_empty(ps: Seq<Seq<char>>) -> Option<Seq<Seq<char>>> {
    if ps.len() == 0 {
        None
    } else {
        Some(ps)
    }
}

/// What a query result reads as.
pub open spec fn result_view(r: Option<Vec<String>>) -> Option<Seq<Seq<char>>> {
    match r {
        None => None,
        Some(v) => Some(path_views(v@)),
    }
}

/// Does this object implement the named interface?
pub fn has_interface(info: &ObjectEntry, name: &String) -> (r: bool)
    ensures
        r == has_interface_named(info.interfaces@, name@),
{
    let n = info.interfaces.len();
    let mut j: usize = 0;
    while j < n
        invariant
            n == info.interfaces@.len(),
            0 <= j <= n,
            forall|k: int| 0 <= k < j ==> info.interfaces@[k].name@ != name@,
        decreases n - j,
    {
        if info.interfaces[j].name == *name {
            return true;
        }
        j = j + 1;
    }
    false
}

/// Does this object link to `path` through a string property named `prop`
/// on any of its interfaces?
pub fn is_match(path: &str, prop: &str, info: &ObjectEntry) -> (r: bool)
    ensures
        r == links_to_parent(info.interfaces@, path@, prop@),
{
    let path_owned: String = path.to_owned();
    let n = info.interfaces.len();
    let mut j: usize = 0;
    while j < n
        invariant
            n == info.interfaces@.len(),
            0 <= j <= n,
            path_owned@ == path@,
            forall|k: int| 0 <= k < j
                ==> lookup_str(info.interfaces@[k].props@, prop@) != Some(path@),
        decreases n - j,
    {
        match info.interfaces[j].get_str(prop) {
            Some(s) => {
                if s == path_owned {
                    return true;
                }
            },
            None => {},
        }
        j = j + 1;
    }
    false
}

impl ManagedObjectTree {
    /// The paths of the objects implementing `interface_name`, in snapshot
    /// order; `None` when no object does.
    pub fn list_by_interface(&self, interface_name: &str) -> (r: Option<Vec<String>>)
        ensures
            result_view(r) == collapse_empty(
                paths_with_interface(self.objects@, interface_name@),
            ),
    {
        let name: String = interface_name.to_owned();
        let n = self.objects.len();
        let mut out: Vec<String> = Vec::new();
        let mut i: usize = 0;
        proof {
            assert(self.objects@.take(0) =~= Seq::<ObjectEntry>::empty());
            assert(path_views(out@) =~= Seq::<Seq<char>>::empty());
        }
        while i < n
            invariant
                n == self.objects@.len(),
                0 <= i <= n,
                name@ == interface_name@,
                path_views(out@) == paths_with_interface(
                    self.objects@.take(i as int),
                    interface_name@,
                ),
            decreases n - i,
        {
            proof {
                assert(self.objects@.take(i + 1).drop_last() =~= self.objects@.take(i as int));
                assert(self.objects@.take(i + 1).last() == self.objects@[i as int]);
            }
            if has_interface(&self.objects[i], &name) {
                out.push(self.objects[i].path.clone());
                proof {
                    assert(path_views(out@) =~= paths_with_interface(
                        self.objects@.take(i + 1),
                        interface_name@,
                    ));
                }
            }
            i = i + 1;
        }
        proof {
            assert(self.objects@.take(n as int) =~= self.objects@);
        }
        if out.len() == 0 {
            None
        } else {
            Some(out)
        }
    }

    /// The paths of the objects whose string property named
    /// `parent_link_property` equals `parent_path`, in snapshot order;
    /// `None` when no object matches.  No check is made that `parent_path`
    /// itself exists in the snapshot: matching is by string equality alone.
    pub fn list_children(
        &self,
        parent_path: &str,
        parent_link_property: &str,
    ) -> (r: Option<Vec<String>>)
        ensures
            result_view(r) == collapse_empty(
                child_paths(self.objects@, parent_path@, parent_link_property@),
            ),
    {
        let n = self.objects.len();
        let mut out: Vec<String> = Vec::new();
        let mut i: usize = 0;
        proof {
            assert(self.objects@.take(0) =~= Seq::<ObjectEntry>::empty());
            assert(path_views(out@) =~= Seq::<Seq<char>>::empty());
        }
        while i < n
            invariant
                n == self.objects@.len(),
                0 <= i <= n,
                path_views(out@) == child_paths(
                    self.objects@.take(i as int),
                    parent_path@,
                    parent_link_property@,
                ),
            decreases n - i,
        {
            proof {
                assert(self.objects@.take(i + 1).drop_last() =~= self.objects@.take(i as int));
                assert(self.objects@.take(i + 1).last() == self.objects@[i as int]);
            }
            if is_match(parent_path, parent_link_property, &self.objects[i]) {
                out.push(self.objects[i].path.clone());
                proof {
                    assert(path_views(out@) =~= child_paths(
                        self.objects@.take(i + 1),
                        parent_path@,
                        parent_link_property@,
                    ));
                }
            }
            i = i + 1;
        }
        proof {
            assert(self.objects@.take(n as int) =~= self.objects@);
        }
        if out.len() == 0 {
            None
        } else {
            Some(out)
        }
    }

    /// True iff `list_by_interface` would list `path`.
    pub fn object_exists_with_interface(&self, path: &str, interface_name: &str) -> (r: bool)
        ensures
            r == paths_with_interface(self.objects@, interface_name@).contains(path@),
    {
        match self.list_by_interface(interface_name) {
            None => false,
            Some(v) => {
                let path_owned: String = path.to_owned();
                let n = v.len();
                let mut i: usize = 0;
                while i < n
                    invariant
                        n == v@.len(),
                        0 <= i <= n,
                        path_owned@ == path@,
                        path_views(v@) == paths_with_interface(self.objects@, interface_name@),
                        forall|k: int| 0 <= k < i ==> v@[k]@ != path@,
                    decreases n - i,
                {
                    if v[i] == path_owned {
                        proof {
                            let ps = paths_with_interface(self.objects@, interface_name@);
                            assert(path_views(v@) == ps);
                            assert(ps[i as int] == v@[i as int]@);
                            assert(ps.contains(path@));
                        }
                        return true;
                    }
                    i = i + 1;
                }
                proof {
                    assert(forall|k: int| 0 <= k < path_views(v@).len()
                        ==> #[trigger] path_views(v@)[k] == v@[k]@);
                }
                false
            },
        }
    }
}

} // verus!
