#[test]
fn parse_portset() {
    assert!(pod_index::ports::parse_portset("").unwrap().is_empty(), "empty");
    assert!(pod_index::ports::parse_portset("0").is_err(), "0");
    assert_eq!(
        pod_index::ports::parse_portset("1").unwrap(),
        vec![1].into_iter().collect(),
        "1"
    );
    assert_eq!(
        pod_index::ports::parse_portset("1-2").unwrap(),
        vec![1, 2].into_iter().collect(),
        "1-2"
    );
    assert_eq!(
        pod_index::ports::parse_portset("4,1-2").unwrap(),
        vec![1, 2, 4].into_iter().collect(),
        "4,1-2"
    );
    assert!(pod_index::ports::parse_portset("2-1").is_err(), "2-1");
    assert!(pod_index::ports::parse_portset("2-").is_err(), "2-");
    assert!(pod_index::ports::parse_portset("65537").is_err(), "65537");
}

