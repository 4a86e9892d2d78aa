use kitsuvm::render::vip::{Member, ParseMemberError};

#[test]
fn successful_members_parsing() {
    let descriptions = vec![
        "__type__ __name__",
        "rand __type__ __name__",
        "bit is_valid",
        "rand bit[24:16] is_ready",
        "rand bit is_ready",
        "  rand   bit   is_ready  ",
    ];

    for d in descriptions {
        let parsed_member = Member::from_str(d);
        assert!(parsed_member.is_ok());
    }
}

#[test]
fn failed_members_parsing() {
    let descriptions = vec![
        "",
        "    ",
        "__not_rand__ __type__ __name__",
        "__name__",
        "a b c d",
        "rand bit [31:2] is_ready",
    ];

    for d in descriptions {
        let parsed_member = Member::from_str(d);
        assert!(parsed_member.is_err());
    }
}

#[test]
fn two_words_give_a_plain_member() {
    let m = Member::from_str("bit is_valid").unwrap();
    assert_eq!(m.kind, "bit");
    assert_eq!(m.name, "is_valid");
    assert!(!m.is_randomized);
}

#[test]
fn rand_and_two_words_give_a_randomized_member() {
    let m = Member::from_str("  rand   bit[24:16]   is_ready  ").unwrap();
    assert_eq!(m.kind, "bit[24:16]");
    assert_eq!(m.name, "is_ready");
    assert!(m.is_randomized);
}

#[test]
fn member_errors() {
    match Member::from_str("rand x") {
        Err(ParseMemberError::UnexpectedRand(s)) => assert_eq!(s, "rand x"),
        other => panic!("unexpected {:?}", other),
    }
    match Member::from_str("randomly bit x") {
        Err(ParseMemberError::RandNotFound(s)) => assert_eq!(s, "randomly bit x"),
        other => panic!("unexpected {:?}", other),
    }
    match Member::from_str("a b c d") {
        Err(ParseMemberError::InvalidMemberDescription(s)) => assert_eq!(s, "a b c d"),
        other => panic!("unexpected {:?}", other),
    }
    match Member::from_str("") {
        Err(ParseMemberError::InvalidMemberDescription(s)) => assert_eq!(s, ""),
        other => panic!("unexpected {:?}", other),
    }
}
