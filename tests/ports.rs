use kitsuvm::dut::utils::{ParsePortError, Port, PortDirection};
use kitsuvm::text::IntError;

#[test]
fn successful_ports_parsing() {
    let descriptions = vec![
        "port_name",
        "aaaa [5:2]",
        "aaaw  [6:3]",
        "aaww   [9:4]",
        "aagg [5:2]  ",
        "  ggaa [5:2]",
        "  gggg [5:2]  ",
        "bbbb [4:42]",
        "cc [5:2] [2:58]",
        "cw  [5:2]  [2:58]",
        "ww   [5:2]   [2:58]",
    ];

    for d in descriptions {
        let parsed_port = Port::from_str(d);
        assert!(parsed_port.is_ok());
    }
}

#[test]
fn failed_ports_parsing() {
    let descriptions = vec![
        "",
        "          ",
        "aaav [B:2]",
        "aavv [B:H]",
        "aava [9:F]",
        "aaan [-5:2]",
        "aann [-5:-2]",
        "aana [5:-2]",
        "aaab [ 5:2]",
        "aabb [ 5 :2]",
        "abbb [ 5 : 2]",
        "bbbb [ 5 : 2 ]",
        "a [5:2] b",
    ];

    for d in descriptions {
        let parsed_port = Port::from_str(d);
        assert!(parsed_port.is_err());
    }
}

#[test]
fn single_range_is_read_as_high_low() {
    let p = Port::from_str("p [5:2]").unwrap();
    assert_eq!(p.name, "p");
    assert_eq!(p.properties.dimensions, vec![(5, 2)]);
    assert_eq!(p.properties.direction, PortDirection::INOUT);
}

#[test]
fn letter_in_range_is_a_parse_error() {
    match Port::from_str("p [B:2]") {
        Err(ParsePortError::InvalidDimParsing(e)) => assert_eq!(e, IntError::InvalidDigit),
        other => panic!("unexpected {:?}", other),
    }
}

#[test]
fn ranges_keep_their_order_and_are_not_checked() {
    let p = Port::from_str("  cc [5:2]\t[2:58]  ").unwrap();
    assert_eq!(p.name, "cc");
    assert_eq!(p.properties.dimensions, vec![(5, 2), (2, 58)]);
}

#[test]
fn port_without_ranges() {
    let p = Port::from_str("port_name").unwrap();
    assert_eq!(p.name, "port_name");
    assert!(p.properties.dimensions.is_empty());
}

#[test]
fn blank_descriptor_is_invalid_description() {
    match Port::from_str("   ") {
        Err(ParsePortError::InvalidPortDescription(s)) => assert_eq!(s, "   "),
        other => panic!("unexpected {:?}", other),
    }
}

#[test]
fn malformed_range_is_a_description_error() {
    match Port::from_str("a [5:2] b") {
        Err(ParsePortError::InvalidDimDescription(s)) => assert_eq!(s, "b"),
        other => panic!("unexpected {:?}", other),
    }
    match Port::from_str("a [52]") {
        Err(ParsePortError::InvalidDimDescription(s)) => assert_eq!(s, "[52]"),
        other => panic!("unexpected {:?}", other),
    }
}

#[test]
fn first_bad_range_decides_the_error() {
    match Port::from_str("a [x:1] [2") {
        Err(ParsePortError::InvalidDimParsing(e)) => assert_eq!(e, IntError::InvalidDigit),
        other => panic!("unexpected {:?}", other),
    }
}

#[test]
fn range_bounds_follow_u32() {
    let p = Port::from_str("w [+7:4294967295]").unwrap();
    assert_eq!(p.properties.dimensions, vec![(7, 4294967295)]);
    match Port::from_str("w [4294967296:0]") {
        Err(ParsePortError::InvalidDimParsing(e)) => assert_eq!(e, IntError::Overflow),
        other => panic!("unexpected {:?}", other),
    }
    match Port::from_str("w [:0]") {
        Err(ParsePortError::InvalidDimParsing(e)) => assert_eq!(e, IntError::Empty),
        other => panic!("unexpected {:?}", other),
    }
}

#[test]
fn unicode_whitespace_separates_words() {
    let p = Port::from_str("\u{3000}q\u{a0}[1:0]").unwrap();
    assert_eq!(p.name, "q");
    assert_eq!(p.properties.dimensions, vec![(1, 0)]);
}

#[test]
fn complement_swaps_input_and_output() {
    assert_eq!(PortDirection::INPUT.not(), PortDirection::OUTPUT);
    assert_eq!(PortDirection::OUTPUT.not(), PortDirection::INPUT);
    assert_eq!(PortDirection::INOUT.not(), PortDirection::INOUT);
}
