//! The container ports that a pod declares, and the index of those that are
//! named and carry TCP.

use crate::collections::{
    insert_port, named_ports, new_port_index, new_port_set, put_ports, take_ports,
    PortNameIndex,
};
use vstd::prelude::*;

verus! {

/// One port that a container declares.
#[derive(Debug)]
pub struct ContainerPort {
    /// The port's number as declared. It names a port only where it lies
    /// from 1 to 65535.
    pub container_port: i32,
    /// The protocol; TCP where none is given.
    pub protocol: Option<String>,
    /// The name that the port can be referred to by.
    pub name: Option<String>,
}

/// One container of a pod.
#[derive(Debug)]
pub struct Container {
    /// The ports that the container declares, if it declares any.
    pub ports: Option<Vec<ContainerPort>>,
}

/// What a pod is to run.
#[derive(Debug)]
pub struct PodSpec {
    /// The pod's containers, in their declared order.
    pub containers: Vec<Container>,
}

/// Whether a declared port carries TCP: its protocol is `TCP` or is not given.
pub open spec fn is_tcp(port: ContainerPort) -> bool {
    match port.protocol {
        None => true,
        Some(protocol) => protocol@ == "TCP"@,
    }
}

/// Whether a declared number names a port: it lies from 1 to 65535.
pub open spec fn is_port_number(number: i32) -> bool {
    1 <= number <= 65535
}

/// The index once a declared port has been taken up: a named TCP port whose
/// number names a port joins the set under its name; any other changes
/// nothing.
pub open spec fn with_port(index: Map<Seq<char>, Set<u16>>, port: ContainerPort) -> Map<
    Seq<char>,
    Set<u16>,
> {
    match port.name {
        Some(name) if is_tcp(port) && is_port_number(port.container_port) => {
            let held = if index.contains_key(name@) {
                index[name@]
            } else {
                Set::empty()
            };
            index.insert(name@, held.insert(port.container_port as u16))
        },
        _ => index,
    }
}

/// The index once each of the ports has been taken up.
pub open spec fn with_ports(index: Map<Seq<char>, Set<u16>>, ports: Seq<ContainerPort>) -> Map<
    Seq<char>,
    Set<u16>,
>
    decreases ports.len(),
{
    if ports.len() == 0 {
        index
    } else {
        with_port(with_ports(index, ports.drop_last()), ports.last())
    }
}

/// The ports that a container declares; none where it declares none.
pub open spec fn declared_ports(container: Container) -> Seq<ContainerPort> {
    match container.ports {
        Some(ports) => ports@,
        None => Seq::empty(),
    }
}

/// The index once the ports of each of the containers have been taken up.
pub open spec fn with_containers(
    index: Map<Seq<char>, Set<u16>>,
    containers: Seq<Container>,
) -> Map<Seq<char>, Set<u16>>
    decreases containers.len(),
{
    if containers.len() == 0 {
        index
    } else {
        with_ports(
            with_containers(index, containers.drop_last()),
            declared_ports(containers.last()),
        )
    }
}

/// The named TCP ports of a pod: for each name, the ports declared under it
/// in any container, a declared number counting only where it lies from 1 to
/// 65535. Empty where there is no pod spec.
pub open spec fn port_names_of(spec: Option<PodSpec>) -> Map<Seq<char>, Set<u16>> {
    match spec {
        Some(spec) => with_containers(Map::empty(), spec.containers@),
        None => Map::empty(),
    }
}

/// Whether the declared port is a TCP port with this name and this number,
/// the number being one that names a port.
pub open spec fn declares(port: ContainerPort, name: Seq<char>, number: u16) -> bool {
    &&& is_tcp(port)
    &&& port.name matches Some(declared) && declared@ == name
    &&& is_port_number(port.container_port)
    &&& port.container_port == number
}

/// Whether one of the declared ports is a TCP port with this name and number.
pub open spec fn some_port_declares(ports: Seq<ContainerPort>, name: Seq<char>, number: u16) -> bool {
    exists|j: int| 0 <= j < ports.len() && declares(#[trigger] ports[j], name, number)
}

/// Whether one of the containers declares a TCP port with this name and number.
pub open spec fn some_container_declares(
    containers: Seq<Container>,
    name: Seq<char>,
    number: u16,
) -> bool {
    exists|i: int|
        0 <= i < containers.len() && some_port_declares(
            declared_ports(#[trigger] containers[i]),
            name,
            number,
        )
}

/// Whether the index holds the number under the name.
pub open spec fn holds(index: Map<Seq<char>, Set<u16>>, name: Seq<char>, number: u16) -> bool {
    index.contains_key(name) && index[name].contains(number)
}

/// Taking up a port adds what it declares to the index, and nothing else.
pub proof fn lemma_with_port(
    index: Map<Seq<char>, Set<u16>>,
    port: ContainerPort,
    name: Seq<char>,
    number: u16,
)
    ensures
        holds(with_port(index, port), name, number) <==> holds(index, name, number) || declares(
            port,
            name,
            number,
        ),
{
}

/// Taking up a run of ports adds what they declare to the index, and nothing
/// else.
pub proof fn lemma_with_ports(
    index: Map<Seq<char>, Set<u16>>,
    ports: Seq<ContainerPort>,
    name: Seq<char>,
    number: u16,
)
    ensures
        holds(with_ports(index, ports), name, number) <==> holds(index, name, number)
            || some_port_declares(ports, name, number),
    decreases ports.len(),
{
    if ports.len() > 0 {
        let front = ports.drop_last();
        lemma_with_ports(index, front, name, number);
        lemma_with_port(with_ports(index, front), ports.last(), name, number);
        if some_port_declares(front, name, number) {
            let j = choose|j: int| 0 <= j < front.len() && declares(#[trigger] front[j], name, number);
            assert(declares(ports[j], name, number));
        }
        if declares(ports.last(), name, number) {
            assert(declares(ports[ports.len() - 1], name, number));
        }
        if some_port_declares(ports, name, number) {
            let j = choose|j: int| 0 <= j < ports.len() && declares(#[trigger] ports[j], name, number);
            if j < front.len() {
                assert(declares(front[j], name, number));
            }
        }
    }
}

/// Taking up a run of containers adds what their ports declare to the index,
/// and nothing else.
pub proof fn lemma_with_containers(
    index: Map<Seq<char>, Set<u16>>,
    containers: Seq<Container>,
    name: Seq<char>,
    number: u16,
)
    ensures
        holds(with_containers(index, containers), name, number) <==> holds(index, name, number)
            || some_container_declares(containers, name, number),
    decreases containers.len(),
{
    if containers.len() > 0 {
        let front = containers.drop_last();
        let last = containers.last();
        lemma_with_containers(index, front, name, number);
        lemma_with_ports(with_containers(index, front), declared_ports(last), name, number);
        if some_container_declares(front, name, number) {
            let i = choose|i: int|
                0 <= i < front.len() && some_port_declares(
                    declared_ports(#[trigger] front[i]),
                    name,
                    number,
                );
            assert(some_port_declares(declared_ports(containers[i]), name, number));
        }
        if some_port_declares(declared_ports(last), name, number) {
            assert(some_port_declares(
                declared_ports(containers[containers.len() - 1]),
                name,
                number,
            ));
        }
        if some_container_declares(containers, name, number) {
            let i = choose|i: int|
                0 <= i < containers.len() && some_port_declares(
                    declared_ports(#[trigger] containers[i]),
                    name,
                    number,
                );
            if i < front.len() {
                assert(some_port_declares(declared_ports(front[i]), name, number));
            }
        }
    }
}

/// The index of a pod holds a number under a name exactly when one of the
/// pod's containers declares a TCP port with that name and that number.
pub proof fn lemma_port_names_of(spec: PodSpec, name: Seq<char>, number: u16)
    ensures
        holds(port_names_of(Some(spec)), name, number) <==> some_container_declares(
            spec.containers@,
            name,
            number,
        ),
{
    lemma_with_containers(Map::empty(), spec.containers@, name, number);
}

/// No set of a pod's index holds port 0, whatever numbers the pod declares.
pub proof fn lemma_index_never_holds_zero(spec: Option<PodSpec>, name: Seq<char>)
    ensures
        !holds(port_names_of(spec), name, 0),
{
    if let Some(spec) = spec {
        lemma_port_names_of(spec, name, 0);
    }
}

/// No name of a pod's index stands for an empty set.
pub proof fn lemma_named_sets_inhabited(spec: Option<PodSpec>, name: Seq<char>)
    requires
        port_names_of(spec).contains_key(name),
    ensures
        exists|number: u16| holds(port_names_of(spec), name, number),
{
    match spec {
        Some(spec) => lemma_containers_inhabited(spec.containers@, name),
        None => {},
    }
}

/// Whether every name of the index stands for a set that holds a port.
spec fn inhabited(index: Map<Seq<char>, Set<u16>>, name: Seq<char>) -> bool {
    index.contains_key(name) ==> exists|number: u16| holds(index, name, number)
}

proof fn lemma_ports_inhabited(index: Map<Seq<char>, Set<u16>>, ports: Seq<ContainerPort>, name: Seq<char>)
    requires
        inhabited(index, name),
    ensures
        inhabited(with_ports(index, ports), name),
    decreases ports.len(),
{
    if ports.len() > 0 {
        let before = with_ports(index, ports.drop_last());
        lemma_ports_inhabited(index, ports.drop_last(), name);
        let after = with_port(before, ports.last());
        if after.contains_key(name) {
            if before.contains_key(name) {
                let number = choose|number: u16| holds(before, name, number);
                lemma_with_port(before, ports.last(), name, number);
                assert(holds(after, name, number));
            } else {
                let number = ports.last().container_port as u16;
                assert(holds(after, name, number));
            }
        }
    }
}

proof fn lemma_containers_inhabited(containers: Seq<Container>, name: Seq<char>)
    ensures
        inhabited(with_containers(Map::empty(), containers), name),
    decreases containers.len(),
{
    if containers.len() > 0 {
        lemma_containers_inhabited(containers.drop_last(), name);
        lemma_ports_inhabited(
            with_containers(Map::empty(), containers.drop_last()),
            declared_ports(containers.last()),
            name,
        );
    }
}

/// Takes one declared port up into the index.
fn add_port(index: &mut PortNameIndex, port: &ContainerPort, tcp: &String)
    requires
        tcp@ == "TCP"@,
    ensures
        named_ports(*final(index)) == with_port(named_ports(*old(index)), *port),
{
    let carries_tcp = match &port.protocol {
        None => true,
        Some(protocol) => *protocol == *tcp,
    };
    if carries_tcp && 1 <= port.container_port && port.container_port <= 65535 {
        if let Some(name) = &port.name {
            let mut set = match take_ports(index, name) {
                Some(set) => set,
                None => new_port_set(),
            };
            insert_port(&mut set, port.container_port as u16);
            put_ports(index, name.clone(), set);
            assert(named_ports(*index) =~= with_port(named_ports(*old(index)), *port));
        }
    }
}

/// Gets the set of named TCP ports from a pod spec. A declared number that
/// names no port, such as 0, is passed over.
pub fn tcp_port_names(spec: Option<PodSpec>) -> (index: PortNameIndex)
    ensures
        named_ports(index) == port_names_of(spec),
{
    let mut index = new_port_index();
    if let Some(spec) = &spec {
        let tcp = "TCP".to_owned();
        let mut i: usize = 0;
        while i < spec.containers.len()
            invariant
                i <= spec.containers.len(),
                tcp@ == "TCP"@,
                named_ports(index) == with_containers(Map::empty(), spec.containers@.take(i as int)),
            decreases spec.containers.len() - i,
        {
            let ghost before = named_ports(index);
            if let Some(ports) = &spec.containers[i].ports {
                let mut j: usize = 0;
                while j < ports.len()
                    invariant
                        j <= ports.len(),
                        tcp@ == "TCP"@,
                        named_ports(index) == with_ports(before, ports@.take(j as int)),
                    decreases ports.len() - j,
                {
                    add_port(&mut index, &ports[j], &tcp);
                    assert(ports@.take(j + 1).drop_last() =~= ports@.take(j as int));
                    j += 1;
                }
                assert(ports@.take(j as int) =~= ports@);
            }
            assert(spec.containers@.take(i + 1).drop_last() =~= spec.containers@.take(i as int));
            i += 1;
        }
        assert(spec.containers@.take(i as int) =~= spec.containers@);
    }
    index
}

} // verus!
