use mnemosyne_atomic::model::RejectedAlternative;

#[test]
fn rejected_alternative_parse_line_separators_and_bullet() {
    let em = RejectedAlternative::parse_line("- foo — because bar").unwrap();
    assert_eq!(em.alternative, "foo");
    assert_eq!(em.reason, "because bar");
    let dh = RejectedAlternative::parse_line("foo -- because bar").unwrap();
    assert_eq!(dh, em);
    assert!(RejectedAlternative::parse_line("no separator here").is_none());
}

#[test]
fn parse_line_splits_at_the_first_separator_and_prefers_the_em_dash() {
    let a = RejectedAlternative::parse_line("  x -- y — z  ").unwrap();
    assert_eq!(a.alternative, "x -- y");
    assert_eq!(a.reason, "z");
    let b = RejectedAlternative::parse_line("a -- b -- c").unwrap();
    assert_eq!(b.alternative, "a");
    assert_eq!(b.reason, "b -- c");
}
