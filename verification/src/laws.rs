//! The laws the filtering queries obey, stated and proved over the spec
//! functions their contracts use.

use vstd::prelude::*;

use crate::query::child_paths;
use crate::query::collapse_empty;
use crate::query::has_interface_named;
use crate::query::links_to_parent;
use crate::query::paths_with_interface;
use crate::query::result_view;
use crate::tree::InterfaceEntry;
use crate::tree::ObjectEntry;
use crate::tree::PropEntry;
use crate::tree::lookup_str;
use crate::tree::object_paths_distinct;
use crate::tree::prop_names_distinct;

verus! {

/// Every object implementing the interface contributes its path to the
/// query's result.
pub proof fn lemma_by_interface_complete(objs: Seq<ObjectEntry>, name: Seq<char>, i: int)
    requires
        0 <= i < objs.len(),
        has_interface_named(objs[i].interfaces@, name),
    ensures
        paths_with_interface(objs, name).contains(objs[i].path@),
    decreases objs.len(),
{
    let ps = paths_with_interface(objs, name);
    let prefix = objs.drop_last();
    if i == objs.len() - 1 {
        assert(ps[ps.len() - 1] == objs[i].path@);
        assert(ps.contains(objs[i].path@));
    } else {
        assert(prefix[i] == objs[i]);
        lemma_by_interface_complete(prefix, name, i);
        let pps = paths_with_interface(prefix, name);
        let k = choose|k: int| 0 <= k < pps.len() && pps[k] == objs[i].path@;
        assert(ps[k] == objs[i].path@);
        assert(ps.contains(objs[i].path@));
    }
}

/// Every path in the query's result is the path of some object implementing
/// the interface.
pub proof fn lemma_by_interface_sound(objs: Seq<ObjectEntry>, name: Seq<char>, k: int)
    requires
        0 <= k < paths_with_interface(objs, name).len(),
    ensures
        exists|i: int|
            0 <= i < objs.len() && objs[i].path@ == paths_with_interface(objs, name)[k]
                && has_interface_named(#[trigger] objs[i].interfaces@, name),
    decreases objs.len(),
{
    let ps = paths_with_interface(objs, name);
    let prefix = objs.drop_last();
    let pps = paths_with_interface(prefix, name);
    if has_interface_named(objs.last().interfaces@, name) && k == pps.len() {
        let w: int = objs.len() - 1;
        assert(objs[w].path@ == ps[k] && has_interface_named(objs[w].interfaces@, name));
    } else {
        lemma_by_interface_sound(prefix, name, k);
        let i = choose|i: int|
            0 <= i < prefix.len() && prefix[i].path@ == pps[k]
                && has_interface_named(#[trigger] prefix[i].interfaces@, name);
        assert(prefix[i] == objs[i]);
        assert(objs[i].path@ == ps[k] && has_interface_named(objs[i].interfaces@, name));
    }
}

/// Law: the interface query returns exactly the set of paths whose
/// interface map contains the queried name - a path is in the result
/// if and only if some object carries it and implements the interface.
pub proof fn lemma_by_interface_exact(objs: Seq<ObjectEntry>, name: Seq<char>)
    ensures
        forall|p: Seq<char>|
            #[trigger] paths_with_interface(objs, name).contains(p) <==> exists|i: int|
                0 <= i < objs.len() && objs[i].path@ == p
                    && has_interface_named(#[trigger] objs[i].interfaces@, name),
{
    let ps = paths_with_interface(objs, name);
    assert forall|p: Seq<char>| #[trigger] ps.contains(p) implies exists|i: int|
        0 <= i < objs.len() && objs[i].path@ == p
            && has_interface_named(#[trigger] objs[i].interfaces@, name) by {
        let k = choose|k: int| 0 <= k < ps.len() && ps[k] == p;
        lemma_by_interface_sound(objs, name, k);
    }
    assert forall|p: Seq<char>|
        (exists|i: int|
            0 <= i < objs.len() && objs[i].path@ == p
                && has_interface_named(#[trigger] objs[i].interfaces@, name))
        implies #[trigger] ps.contains(p) by {
        let i = choose|i: int|
            0 <= i < objs.len() && objs[i].path@ == p
                && has_interface_named(#[trigger] objs[i].interfaces@, name);
        lemma_by_interface_complete(objs, name, i);
    }
}

/// In a snapshot whose object paths are distinct, the interface query
/// lists no path twice.
pub proof fn lemma_by_interface_no_dup(objs: Seq<ObjectEntry>, name: Seq<char>)
    requires
        object_paths_distinct(objs),
    ensures
        paths_with_interface(objs, name).no_duplicates(),
    decreases objs.len(),
{
    if objs.len() == 0 {
    } else {
        let ps = paths_with_interface(objs, name);
        let prefix = objs.drop_last();
        let pps = paths_with_interface(prefix, name);
        assert forall|i1: int, i2: int| 0 <= i1 < i2 < prefix.len() implies
            (#[trigger] prefix[i1]).path@ != (#[trigger] prefix[i2]).path@ by {
            assert(prefix[i1] == objs[i1] && prefix[i2] == objs[i2]);
        }
        lemma_by_interface_no_dup(prefix, name);
        if has_interface_named(objs.last().interfaces@, name) {
            assert(!pps.contains(objs.last().path@)) by {
                if pps.contains(objs.last().path@) {
                    let k = choose|k: int| 0 <= k < pps.len() && pps[k] == objs.last().path@;
                    lemma_by_interface_sound(prefix, name, k);
                    let i = choose|i: int|
                        0 <= i < prefix.len() && prefix[i].path@ == pps[k]
                            && has_interface_named(#[trigger] prefix[i].interfaces@, name);
                    assert(prefix[i] == objs[i]);
                    assert(objs[i].path@ == objs[objs.len() - 1].path@);
                    assert(false);
                }
            }
            assert forall|a: int, b: int|
                0 <= a < ps.len() && 0 <= b < ps.len() && a != b implies ps[a] != ps[b] by {
                if a < pps.len() && b < pps.len() {
                } else if b == pps.len() {
                    assert(pps.contains(ps[a])) by {
                        assert(pps[a] == ps[a]);
                    }
                } else {
                    assert(pps.contains(ps[b])) by {
                        assert(pps[b] == ps[b]);
                    }
                }
            }
        }
    }
}

/// Does some interface carry a string-like property named `prop` whose
/// value is `parent`?  This is the child-discovery condition stated as a
/// plain existential, with no appeal to lookup order.
pub open spec fn has_string_link(
    ifaces: Seq<InterfaceEntry>,
    parent: Seq<char>,
    prop: Seq<char>,
) -> bool {
    exists|j: int, k: int|
        0 <= j < ifaces.len() && 0 <= k < ifaces[j].props@.len()
            && (#[trigger] ifaces[j].props@[k]).name@ == prop
            && ifaces[j].props@[k].value.as_str_spec() == Some(parent)
}

/// When property names are distinct, looking a name up finds a string
/// value exactly when some property carries that name and that value.
pub proof fn lemma_lookup_str_exact(props: Seq<PropEntry>, key: Seq<char>, val: Seq<char>)
    requires
        prop_names_distinct(props),
    ensures
        lookup_str(props, key) == Some(val) <==> exists|k: int|
            0 <= k < props.len() && (#[trigger] props[k]).name@ == key
                && props[k].value.as_str_spec() == Some(val),
    decreases props.len(),
{
    if props.len() == 0 {
    } else if props[0].name@ == key {
        if lookup_str(props, key) == Some(val) {
            assert(props[0].name@ == key && props[0].value.as_str_spec() == Some(val));
        }
        if exists|k: int|
            0 <= k < props.len() && (#[trigger] props[k]).name@ == key
                && props[k].value.as_str_spec() == Some(val) {
            let k = choose|k: int|
                0 <= k < props.len() && (#[trigger] props[k]).name@ == key
                    && props[k].value.as_str_spec() == Some(val);
            assert(k == 0);
        }
    } else {
        let rest = props.drop_first();
        assert forall|k1: int, k2: int| 0 <= k1 < k2 < rest.len() implies
            (#[trigger] rest[k1]).name@ != (#[trigger] rest[k2]).name@ by {
            assert(rest[k1] == props[k1 + 1] && rest[k2] == props[k2 + 1]);
        }
        lemma_lookup_str_exact(rest, key, val);
        if exists|k: int|
            0 <= k < rest.len() && (#[trigger] rest[k]).name@ == key
                && rest[k].value.as_str_spec() == Some(val) {
            let k = choose|k: int|
                0 <= k < rest.len() && (#[trigger] rest[k]).name@ == key
                    && rest[k].value.as_str_spec() == Some(val);
            assert(props[k + 1] == rest[k]);
        }
        if exists|k: int|
            0 <= k < props.len() && (#[trigger] props[k]).name@ == key
                && props[k].value.as_str_spec() == Some(val) {
            let k = choose|k: int|
                0 <= k < props.len() && (#[trigger] props[k]).name@ == key
                    && props[k].value.as_str_spec() == Some(val);
            assert(k > 0);
            assert(rest[k - 1] == props[k]);
        }
    }
}

/// When every interface's property names are distinct, the lookup-based
/// child condition agrees with the plain existential one.
pub proof fn lemma_links_to_parent_exact(
    ifaces: Seq<InterfaceEntry>,
    parent: Seq<char>,
    prop: Seq<char>,
)
    requires
        forall|j: int| 0 <= j < ifaces.len() ==> (#[trigger] ifaces[j]).wf(),
    ensures
        links_to_parent(ifaces, parent, prop) == has_string_link(ifaces, parent, prop),
{
    if links_to_parent(ifaces, parent, prop) {
        let j = choose|j: int|
            0 <= j < ifaces.len() && lookup_str(ifaces[j].props@, prop) == Some(parent);
        lemma_lookup_str_exact(ifaces[j].props@, prop, parent);
        let k = choose|k: int|
            0 <= k < ifaces[j].props@.len() && (#[trigger] ifaces[j].props@[k]).name@ == prop
                && ifaces[j].props@[k].value.as_str_spec() == Some(parent);
        assert(has_string_link(ifaces, parent, prop));
    }
    if has_string_link(ifaces, parent, prop) {
        let (j, k) = choose|j: int, k: int|
            0 <= j < ifaces.len() && 0 <= k < ifaces[j].props@.len()
                && (#[trigger] ifaces[j].props@[k]).name@ == prop
                && ifaces[j].props@[k].value.as_str_spec() == Some(parent);
        lemma_lookup_str_exact(ifaces[j].props@, prop, parent);
        assert(lookup_str(ifaces[j].props@, prop) == Some(parent));
    }
}

/// Every object linking to the parent contributes its path to the child
/// query's result.
pub proof fn lemma_children_complete(
    objs: Seq<ObjectEntry>,
    parent: Seq<char>,
    prop: Seq<char>,
    i: int,
)
    requires
        0 <= i < objs.len(),
        links_to_parent(objs[i].interfaces@, parent, prop),
    ensures
        child_paths(objs, parent, prop).contains(objs[i].path@),
    decreases objs.len(),
{
    let ps = child_paths(objs, parent, prop);
    let prefix = objs.drop_last();
    if i == objs.len() - 1 {
        assert(ps[ps.len() - 1] == objs[i].path@);
        assert(ps.contains(objs[i].path@));
    } else {
        assert(prefix[i] == objs[i]);
        lemma_children_complete(prefix, parent, prop, i);
        let pps = child_paths(prefix, parent, prop);
        let k = choose|k: int| 0 <= k < pps.len() && pps[k] == objs[i].path@;
        assert(ps[k] == objs[i].path@);
        assert(ps.contains(objs[i].path@));
    }
}

/// Every path in the child query's result is the path of some object
/// linking to the parent.
pub proof fn lemma_children_sound(
    objs: Seq<ObjectEntry>,
    parent: Seq<char>,
    prop: Seq<char>,
    k: int,
)
    requires
        0 <= k < child_paths(objs, parent, prop).len(),
    ensures
        exists|i: int|
            0 <= i < objs.len() && objs[i].path@ == child_paths(objs, parent, prop)[k]
                && links_to_parent(#[trigger] objs[i].interfaces@, parent, prop),
    decreases objs.len(),
{
    let ps = child_paths(objs, parent, prop);
    let prefix = objs.drop_last();
    let pps = child_paths(prefix, parent, prop);
    if links_to_parent(objs.last().interfaces@, parent, prop) && k == pps.len() {
        let w: int = objs.len() - 1;
        assert(objs[w].path@ == ps[k] && links_to_parent(objs[w].interfaces@, parent, prop));
    } else {
        lemma_children_sound(prefix, parent, prop, k);
        let i = choose|i: int|
            0 <= i < prefix.len() && prefix[i].path@ == pps[k]
                && links_to_parent(#[trigger] prefix[i].interfaces@, parent, prop);
        assert(prefix[i] == objs[i]);
        assert(objs[i].path@ == ps[k] && links_to_parent(objs[i].interfaces@, parent, prop));
    }
}

/// Law: in a snapshot whose interfaces are well-formed, the child query
/// returns exactly the set of paths having some interface with a
/// string-valued property of the queried name equal to the parent path.
pub proof fn lemma_children_exact(objs: Seq<ObjectEntry>, parent: Seq<char>, prop: Seq<char>)
    requires
        forall|i: int| 0 <= i < objs.len() ==> (#[trigger] objs[i]).wf(),
    ensures
        forall|p: Seq<char>|
            #[trigger] child_paths(objs, parent, prop).contains(p) <==> exists|i: int|
                0 <= i < objs.len() && objs[i].path@ == p
                    && has_string_link(#[trigger] objs[i].interfaces@, parent, prop),
{
    let ps = child_paths(objs, parent, prop);
    assert forall|i: int| 0 <= i < objs.len() implies
        links_to_parent(#[trigger] objs[i].interfaces@, parent, prop)
            == has_string_link(objs[i].interfaces@, parent, prop) by {
        lemma_links_to_parent_exact(objs[i].interfaces@, parent, prop);
    }
    assert forall|p: Seq<char>| #[trigger] ps.contains(p) implies exists|i: int|
        0 <= i < objs.len() && objs[i].path@ == p
            && has_string_link(#[trigger] objs[i].interfaces@, parent, prop) by {
        let k = choose|k: int| 0 <= k < ps.len() && ps[k] == p;
        lemma_children_sound(objs, parent, prop, k);
        let i = choose|i: int|
            0 <= i < objs.len() && objs[i].path@ == ps[k]
                && links_to_parent(#[trigger] objs[i].interfaces@, parent, prop);
        assert(has_string_link(objs[i].interfaces@, parent, prop));
    }
    assert forall|p: Seq<char>|
        (exists|i: int|
            0 <= i < objs.len() && objs[i].path@ == p
                && has_string_link(#[trigger] objs[i].interfaces@, parent, prop))
        implies #[trigger] ps.contains(p) by {
        let i = choose|i: int|
            0 <= i < objs.len() && objs[i].path@ == p
                && has_string_link(#[trigger] objs[i].interfaces@, parent, prop);
        lemma_children_complete(objs, parent, prop, i);
    }
}

/// In a snapshot whose object paths are distinct, the child query lists
/// no path twice.
pub proof fn lemma_children_no_dup(objs: Seq<ObjectEntry>, parent: Seq<char>, prop: Seq<char>)
    requires
        object_paths_distinct(objs),
    ensures
        child_paths(objs, parent, prop).no_duplicates(),
    decreases objs.len(),
{
    if objs.len() == 0 {
    } else {
        let ps = child_paths(objs, parent, prop);
        let prefix = objs.drop_last();
        let pps = child_paths(prefix, parent, prop);
        assert forall|i1: int, i2: int| 0 <= i1 < i2 < prefix.len() implies
            (#[trigger] prefix[i1]).path@ != (#[trigger] prefix[i2]).path@ by {
            assert(prefix[i1] == objs[i1] && prefix[i2] == objs[i2]);
        }
        lemma_children_no_dup(prefix, parent, prop);
        if links_to_parent(objs.last().interfaces@, parent, prop) {
            assert(!pps.contains(objs.last().path@)) by {
                if pps.contains(objs.last().path@) {
                    let k = choose|k: int| 0 <= k < pps.len() && pps[k] == objs.last().path@;
                    lemma_children_sound(prefix, parent, prop, k);
                    let i = choose|i: int|
                        0 <= i < prefix.len() && prefix[i].path@ == pps[k]
                            && links_to_parent(#[trigger] prefix[i].interfaces@, parent, prop);
                    assert(prefix[i] == objs[i]);
                    assert(objs[i].path@ == objs[objs.len() - 1].path@);
                    assert(false);
                }
            }
            assert forall|a: int, b: int|
                0 <= a < ps.len() && 0 <= b < ps.len() && a != b implies ps[a] != ps[b] by {
                if a < pps.len() && b < pps.len() {
                } else if b == pps.len() {
                    assert(pps.contains(ps[a])) by {
                        assert(pps[a] == ps[a]);
                    }
                } else {
                    assert(pps.contains(ps[b])) by {
                        assert(pps[b] == ps[b]);
                    }
                }
            }
        }
    }
}

/// Law: filtering is idempotent.  Any two results that the interface
/// query's contract admits for one snapshot and one name read as the same
/// path list: re-running the query against an unchanged snapshot cannot
/// change the answer.
pub proof fn lemma_by_interface_idempotent(
    objs: Seq<ObjectEntry>,
    name: Seq<char>,
    r1: Option<Vec<String>>,
    r2: Option<Vec<String>>,
)
    requires
        result_view(r1) == collapse_empty(paths_with_interface(objs, name)),
        result_view(r2) == collapse_empty(paths_with_interface(objs, name)),
    ensures
        result_view(r1) == result_view(r2),
{
}

/// Law: filtering is idempotent, child-query form.
pub proof fn lemma_children_idempotent(
    objs: Seq<ObjectEntry>,
    parent: Seq<char>,
    prop: Seq<char>,
    r1: Option<Vec<String>>,
    r2: Option<Vec<String>>,
)
    requires
        result_view(r1) == collapse_empty(child_paths(objs, parent, prop)),
        result_view(r2) == collapse_empty(child_paths(objs, parent, prop)),
    ensures
        result_view(r1) == result_view(r2),
{
}

/// Law: a property whose value is not string-like never matches.  When
/// every property named `key` carries a non-string value, the lookup finds
/// no string at all - so no parent path compares equal to it.
pub proof fn lemma_non_string_never_matches(props: Seq<PropEntry>, key: Seq<char>)
    requires
        forall|k: int|
            0 <= k < props.len() && (#[trigger] props[k]).name@ == key
                ==> props[k].value.as_str_spec() is None,
    ensures
        lookup_str(props, key) is None,
    decreases props.len(),
{
    if props.len() == 0 {
    } else if props[0].name@ == key {
    } else {
        let rest = props.drop_first();
        assert forall|k: int|
            0 <= k < rest.len() && (#[trigger] rest[k]).name@ == key implies
            rest[k].value.as_str_spec() is None by {
            assert(rest[k] == props[k + 1]);
        }
        lemma_non_string_never_matches(rest, key);
    }
}

/// Law, object form: an object none of whose properties named `prop` is
/// string-like links to no parent path at all, whatever the path.
pub proof fn lemma_non_string_object_never_matches(
    ifaces: Seq<InterfaceEntry>,
    parent: Seq<char>,
    prop: Seq<char>,
)
    requires
        forall|j: int, k: int|
            0 <= j < ifaces.len() && 0 <= k < ifaces[j].props@.len()
                && (#[trigger] ifaces[j].props@[k]).name@ == prop
                ==> ifaces[j].props@[k].value.as_str_spec() is None,
    ensures
        !links_to_parent(ifaces, parent, prop),
{
    assert forall|j: int| 0 <= j < ifaces.len() implies
        lookup_str((#[trigger] ifaces[j]).props@, prop) is None by {
        lemma_non_string_never_matches(ifaces[j].props@, prop);
    }
}

} // verus!
