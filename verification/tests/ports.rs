use ahash::AHashSet;
use pod_index::ports::{is_whitespace, parse_portset, ParseError};

fn set_of(ports: Vec<u16>) -> AHashSet<u16> {
    ports.into_iter().collect()
}

#[test]
fn empty_list_is_empty_set() {
    assert_eq!(parse_portset("").unwrap(), set_of(vec![]));
}

#[test]
fn blank_tokens_are_skipped() {
    assert_eq!(parse_portset(",").unwrap(), set_of(vec![]));
    assert_eq!(parse_portset(" , ,").unwrap(), set_of(vec![]));
    assert_eq!(parse_portset(",,1,,").unwrap(), set_of(vec![1]));
    assert_eq!(parse_portset("80,").unwrap(), set_of(vec![80]));
    assert_eq!(parse_portset(",80").unwrap(), set_of(vec![80]));
}

#[test]
fn tokens_are_trimmed() {
    assert_eq!(parse_portset(" 80 , 8080 ").unwrap(), set_of(vec![80, 8080]));
    assert_eq!(parse_portset("\t7 - 9\n").unwrap(), set_of(vec![7, 8, 9]));
    assert_eq!(parse_portset("\u{00A0}80\u{3000}").unwrap(), set_of(vec![80]));
}

#[test]
fn duplicates_collapse() {
    assert_eq!(parse_portset("1,1,1-1").unwrap(), set_of(vec![1]));
    assert_eq!(parse_portset("1-3,2-4").unwrap(), set_of(vec![1, 2, 3, 4]));
    assert_eq!(parse_portset("1-2,4").unwrap(), parse_portset("4,1-2").unwrap());
}

#[test]
fn number_forms() {
    assert_eq!(parse_portset("+80").unwrap(), set_of(vec![80]));
    assert_eq!(parse_portset("007").unwrap(), set_of(vec![7]));
    assert_eq!(parse_portset("0000000000000000000080").unwrap(), set_of(vec![80]));
    assert_eq!(parse_portset("65535").unwrap(), set_of(vec![65535]));
    assert_eq!(parse_portset("65534-65535").unwrap(), set_of(vec![65534, 65535]));
}

#[test]
fn full_range_has_every_port() {
    let ports = parse_portset("1-65535").unwrap();
    assert_eq!(ports.len(), 65535);
    assert!(!ports.contains(&0));
    assert!(ports.contains(&1));
    assert!(ports.contains(&65535));
}

#[test]
fn zero_port_is_refused() {
    assert!(matches!(parse_portset("0"), Err(ParseError::ZeroPort)));
    assert!(matches!(parse_portset("000"), Err(ParseError::ZeroPort)));
    assert!(matches!(parse_portset("0-5"), Err(ParseError::ZeroPort)));
    assert!(matches!(parse_portset("0-0"), Err(ParseError::ZeroPort)));
    assert!(matches!(parse_portset("1-0"), Err(ParseError::ZeroPort)));
}

#[test]
fn decreasing_range_is_refused() {
    assert!(matches!(parse_portset("2-1"), Err(ParseError::DecreasingRange)));
    assert!(matches!(parse_portset("65535-1"), Err(ParseError::DecreasingRange)));
}

#[test]
fn invalid_number_carries_the_token() {
    match parse_portset("2-") {
        Err(ParseError::InvalidNumber { token }) => assert_eq!(token, ""),
        other => panic!("unexpected: {:?}", other),
    }
    match parse_portset("-2") {
        Err(ParseError::InvalidNumber { token }) => assert_eq!(token, ""),
        other => panic!("unexpected: {:?}", other),
    }
    match parse_portset("65537") {
        Err(ParseError::InvalidNumber { token }) => assert_eq!(token, "65537"),
        other => panic!("unexpected: {:?}", other),
    }
    match parse_portset("65536") {
        Err(ParseError::InvalidNumber { token }) => assert_eq!(token, "65536"),
        other => panic!("unexpected: {:?}", other),
    }
    match parse_portset("1, http ,3") {
        Err(ParseError::InvalidNumber { token }) => assert_eq!(token, "http"),
        other => panic!("unexpected: {:?}", other),
    }
    match parse_portset("1--2") {
        Err(ParseError::InvalidNumber { token }) => assert_eq!(token, "-2"),
        other => panic!("unexpected: {:?}", other),
    }
    match parse_portset("1 - x") {
        Err(ParseError::InvalidNumber { token }) => assert_eq!(token, "x"),
        other => panic!("unexpected: {:?}", other),
    }
    match parse_portset("+") {
        Err(ParseError::InvalidNumber { token }) => assert_eq!(token, "+"),
        other => panic!("unexpected: {:?}", other),
    }
    match parse_portset("8 0") {
        Err(ParseError::InvalidNumber { token }) => assert_eq!(token, "8 0"),
        other => panic!("unexpected: {:?}", other),
    }
}

#[test]
fn first_refused_token_decides() {
    assert!(matches!(parse_portset("1,0,2-1"), Err(ParseError::ZeroPort)));
    assert!(matches!(parse_portset("1,2-1,0"), Err(ParseError::DecreasingRange)));
    assert!(matches!(parse_portset("x-0"), Err(ParseError::InvalidNumber { .. })));
    assert!(matches!(parse_portset("0-x"), Err(ParseError::InvalidNumber { .. })));
}

#[test]
fn parsing_twice_gives_the_same_set() {
    let list = "443, 8000-8010,80";
    assert_eq!(parse_portset(list).unwrap(), parse_portset(list).unwrap());
}

#[test]
fn parsed_sets_never_hold_zero() {
    for list in ["1-10", "65535", "3,2,1", ""] {
        assert!(!parse_portset(list).unwrap().contains(&0));
    }
}

#[test]
fn whitespace_characters() {
    for c in [' ', '\t', '\n', '\r', '\u{000B}', '\u{000C}', '\u{0085}', '\u{00A0}', '\u{1680}',
        '\u{2000}', '\u{200A}', '\u{2028}', '\u{2029}', '\u{202F}', '\u{205F}', '\u{3000}']
    {
        assert!(is_whitespace(c));
    }
    for c in ['a', '0', '-', ',', '\u{200B}', '\u{0008}', '\u{000E}'] {
        assert!(!is_whitespace(c));
    }
    for code in 0u32..=0x10FFFF {
        if let Some(c) = char::from_u32(code) {
            assert_eq!(is_whitespace(c), c.is_whitespace());
        }
    }
}

#[test]
fn reasons_in_words() {
    assert_eq!(parse_portset("x").unwrap_err().reason(), "parsing port");
    assert_eq!(parse_portset("0").unwrap_err().reason(), "port must not be 0");
    assert_eq!(parse_portset("2-1").unwrap_err().reason(), "Port range must be increasing");
}

#[test]
fn errors_compare_by_variant_and_token() {
    assert_eq!(parse_portset("0").unwrap_err(), ParseError::ZeroPort);
    assert_eq!(parse_portset("9-3").unwrap_err(), ParseError::DecreasingRange);
    assert_eq!(
        parse_portset("1,b").unwrap_err(),
        ParseError::InvalidNumber { token: "b".to_string() }
    );
}

#[test]
fn chained_lists_give_the_union() {
    let first = parse_portset("1-3").unwrap();
    let second = parse_portset("3,9").unwrap();
    let chained = parse_portset("1-3,3,9").unwrap();
    let union: AHashSet<u16> = first.union(&second).copied().collect();
    assert_eq!(chained, union);
    assert_eq!(chained, parse_portset("3,9,1-3").unwrap());
    assert_eq!(parse_portset("1-3,1-3").unwrap(), first);
}

fn by_std(list: &str) -> Option<AHashSet<u16>> {
    let mut ports = AHashSet::new();
    for token in list.split(',') {
        match token.split_once('-') {
            None => {
                if !token.trim().is_empty() {
                    let port: u16 = token.trim().parse().ok()?;
                    if port == 0 {
                        return None;
                    }
                    ports.insert(port);
                }
            }
            Some((floor, ceil)) => {
                let floor = floor.trim().parse::<u16>().ok()?;
                let ceil = ceil.trim().parse::<u16>().ok()?;
                if floor == 0 || floor > ceil {
                    return None;
                }
                ports.extend(floor..=ceil);
            }
        }
    }
    Some(ports)
}

fn agree_on(list: &str) {
    assert_eq!(parse_portset(list).ok(), by_std(list), "list {:?}", list);
}

#[test]
fn agrees_with_std_on_short_lists() {
    let alphabet = ['0', '1', '7', '-', ',', ' ', '+', 'x'];
    let mut lists = vec![String::new()];
    for _ in 0..5 {
        let mut longer = Vec::new();
        for list in &lists {
            agree_on(list);
            for c in alphabet {
                let mut next = list.clone();
                next.push(c);
                longer.push(next);
            }
        }
        lists = longer;
    }
    for list in &lists {
        agree_on(list);
    }
}

#[test]
fn agrees_with_std_on_every_number() {
    for number in 0u32..70000 {
        agree_on(&format!("{}", number));
        agree_on(&format!("+{}", number));
        agree_on(&format!("00{}", number));
    }
    agree_on("65530-65536");
    agree_on("65530 - 65535");
    agree_on("99999999999999999999999999");
    agree_on("\u{2003}12\u{2003}");
    agree_on("1\u{0661}");
    agree_on("\u{FF11}\u{FF12}");
}

#[test]
fn characters_of_a_text() {
    assert_eq!(pod_index::text::chars_of(""), Vec::<char>::new());
    assert_eq!(pod_index::text::chars_of("a-1"), vec!['a', '-', '1']);
    assert_eq!(pod_index::text::chars_of("\u{00A0}\u{3000}9"), vec!['\u{00A0}', '\u{3000}', '9']);
}
