//! The hashed collections that hold ports, and what is taken on trust of them.
//!
//! Port sets and the port-name index are `ahash` collections. The verifier
//! cannot look inside them, so each gets a mathematical model and a handful of
//! operations whose contracts over that model are assumed rather than proved.

use ahash::{AHashMap, AHashSet, RandomState};
use vstd::prelude::*;

verus! {

/// `ahash::RandomState`, the hasher state of both collections. Nothing is
/// claimed of it.
#[verifier::external_type_specification]
#[verifier::external_body]
pub struct ExRandomState(RandomState);

/// `ahash::AHashSet`, opaque to the verifier: what a set of ports holds is
/// `port_members`.
#[verifier::external_type_specification]
#[verifier::external_body]
#[verifier::reject_recursive_types(T)]
#[verifier::reject_recursive_types(S)]
pub struct ExAHashSet<T, S>(AHashSet<T, S>);

/// `ahash::AHashMap`, opaque to the verifier: what an index of named ports
/// holds is `named_ports`.
#[verifier::external_type_specification]
#[verifier::external_body]
#[verifier::reject_recursive_types(K)]
#[verifier::reject_recursive_types(V)]
#[verifier::reject_recursive_types(S)]
pub struct ExAHashMap<K, V, S>(AHashMap<K, V, S>);

/// A deduplicated set of ports.
pub type PortSet = AHashSet<u16>;

/// The port sets of a pod's containers, by the name their ports were declared under.
pub type PortNameIndex = AHashMap<String, PortSet>;

/// The ports that a port set holds: the values for which the set's
/// `contains` answers `true`.
pub uninterp spec fn port_members(set: AHashSet<u16>) -> Set<u16>;

/// The port sets that a port-name index holds, by port name: for each key of
/// the map, taken as its characters, the members of the set stored under it.
pub uninterp spec fn named_ports(index: AHashMap<String, AHashSet<u16>>) -> Map<Seq<char>, Set<u16>>;

/// `AHashSet::new`: the set it makes holds nothing.
#[verifier::external_body]
pub(crate) fn new_port_set() -> (set: PortSet)
    ensures
        port_members(set) == Set::<u16>::empty(),
{
    AHashSet::new()
}

/// `HashSet::insert`, reached through `AHashSet`'s `DerefMut`: afterwards the
/// set holds the port beside everything it held before, and the result tells
/// whether the port was new to it.
#[verifier::external_body]
pub(crate) fn insert_port(set: &mut PortSet, port: u16) -> (fresh: bool)
    ensures
        port_members(*final(set)) == port_members(*old(set)).insert(port),
        fresh == !port_members(*old(set)).contains(port),
{
    set.insert(port)
}

/// `AHashMap::new`: the index it makes has no names.
#[verifier::external_body]
pub(crate) fn new_port_index() -> (made: PortNameIndex)
    ensures
        named_ports(made) == (Map::<Seq<char>, Set<u16>>::empty()),
{
    AHashMap::new()
}

/// `AHashMap::remove`: the name leaves the index, and its port set, if it had
/// one, is handed out with its members unchanged.
#[verifier::external_body]
pub(crate) fn take_ports(index: &mut PortNameIndex, name: &String) -> (taken: Option<PortSet>)
    ensures
        named_ports(*final(index)) == named_ports(*old(index)).remove(name@),
        match taken {
            Some(set) => named_ports(*old(index)).contains_key(name@)
                && port_members(set) == named_ports(*old(index))[name@],
            None => !named_ports(*old(index)).contains_key(name@),
        },
{
    index.remove(name)
}

/// `AHashMap::insert`: afterwards the name stands for the members of the given
/// set, and every other name for what it stood for before.
#[verifier::external_body]
pub(crate) fn put_ports(index: &mut PortNameIndex, name: String, set: PortSet)
    ensures
        named_ports(*final(index)) == named_ports(*old(index)).insert(name@, port_members(set)),
{
    index.insert(name, set);
}

} // verus!
