use ahash::AHashSet;
use pod_index::pod_spec::{tcp_port_names, Container, ContainerPort, PodSpec};

fn port(name: Option<&str>, number: i32, protocol: Option<&str>) -> ContainerPort {
    ContainerPort {
        container_port: number,
        protocol: protocol.map(|p| p.to_string()),
        name: name.map(|n| n.to_string()),
    }
}

fn ports_of(ports: Vec<u16>) -> AHashSet<u16> {
    ports.into_iter().collect()
}

#[test]
fn no_spec_gives_no_names() {
    assert!(tcp_port_names(None).is_empty());
}

#[test]
fn named_tcp_ports_of_one_container() {
    let spec = PodSpec {
        containers: vec![Container {
            ports: Some(vec![
                port(Some("http"), 80, Some("TCP")),
                port(Some("http"), 8080, None),
                port(Some("udp1"), 53, Some("UDP")),
                port(None, 9, Some("TCP")),
            ]),
        }],
    };
    let names = tcp_port_names(Some(spec));
    assert_eq!(names.len(), 1);
    assert_eq!(names.get("http"), Some(&ports_of(vec![80, 8080])));
    assert!(names.get("udp1").is_none());
}

#[test]
fn containers_share_a_name() {
    let spec = PodSpec {
        containers: vec![
            Container { ports: Some(vec![port(Some("admin"), 4191, None)]) },
            Container { ports: None },
            Container { ports: Some(vec![]) },
            Container {
                ports: Some(vec![
                    port(Some("admin"), 9990, Some("TCP")),
                    port(Some("admin"), 4191, Some("TCP")),
                    port(Some("grpc"), 8086, None),
                ]),
            },
        ],
    };
    let names = tcp_port_names(Some(spec));
    assert_eq!(names.len(), 2);
    assert_eq!(names.get("admin"), Some(&ports_of(vec![4191, 9990])));
    assert_eq!(names.get("grpc"), Some(&ports_of(vec![8086])));
}

#[test]
fn protocol_is_matched_exactly() {
    let spec = PodSpec {
        containers: vec![Container {
            ports: Some(vec![
                port(Some("a"), 1, Some("tcp")),
                port(Some("b"), 2, Some("SCTP")),
                port(Some("c"), 3, Some("")),
                port(Some("d"), 4, Some("TCP ")),
            ]),
        }],
    };
    assert!(tcp_port_names(Some(spec)).is_empty());
}

#[test]
fn numbers_that_name_no_port_are_left_out() {
    let spec = PodSpec {
        containers: vec![Container {
            ports: Some(vec![
                port(Some("zero"), 0, None),
                port(Some("wide"), 65536 + 80, None),
                port(Some("neg"), -1, Some("TCP")),
                port(Some("edge"), 65536, None),
                port(Some("mixed"), 0, None),
                port(Some("mixed"), 443, None),
                port(Some("mixed"), i32::MAX, None),
                port(Some("mixed"), i32::MIN, None),
            ]),
        }],
    };
    let names = tcp_port_names(Some(spec));
    assert!(names.get("zero").is_none());
    assert!(names.get("wide").is_none());
    assert!(names.get("neg").is_none());
    assert!(names.get("edge").is_none());
    assert_eq!(names.get("mixed"), Some(&ports_of(vec![443])));
    assert_eq!(names.len(), 1);
}

#[test]
fn every_port_number_is_kept_as_it_is() {
    let spec = PodSpec {
        containers: vec![Container {
            ports: Some(vec![port(Some("low"), 1, None), port(Some("high"), 65535, None)]),
        }],
    };
    let names = tcp_port_names(Some(spec));
    assert_eq!(names.get("low"), Some(&ports_of(vec![1])));
    assert_eq!(names.get("high"), Some(&ports_of(vec![65535])));
}

#[test]
fn no_set_of_the_index_holds_zero() {
    let mut ports = Vec::new();
    for number in [-65536, -1, 0, 1, 80, 65535, 65536, 131072] {
        ports.push(port(Some("any"), number, None));
        ports.push(port(Some("tcp"), number, Some("TCP")));
    }
    let names = tcp_port_names(Some(PodSpec { containers: vec![Container { ports: Some(ports) }] }));
    for (_, set) in names.iter() {
        assert!(!set.contains(&0));
        assert_eq!(set, &ports_of(vec![1, 80, 65535]));
    }
    assert_eq!(names.len(), 2);
}

#[test]
fn spec_without_containers_gives_no_names() {
    assert!(tcp_port_names(Some(PodSpec { containers: vec![] })).is_empty());
}
