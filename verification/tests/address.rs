//! Addresses and the patterns over them.
use tear::address::{
    Address, AddressError, Pattern, PatternError, PatternToken, Segment, SegmentError,
    SEGMENT_MAX_LEN, WILDCARD_ONE, WILDCARD_TAIL,
};

fn seg(s: &str) -> Segment {
    Segment::parse(s).expect("test fixture must be a legal segment")
}

fn addr(s: &str) -> Address {
    Address::parse(s).expect("test fixture must be a legal address")
}

fn pat(s: &str) -> Pattern {
    Pattern::parse(s).expect("test fixture must be a legal pattern")
}

#[test]
fn segment_rejects_empty() {
    assert_eq!(Segment::parse("").unwrap_err(), SegmentError::Empty);
}

#[test]
fn segment_rejects_the_separator() {
    let err = Segment::parse("work.build").unwrap_err();
    assert_eq!(err, SegmentError::ContainsSeparator("work.build".into()));
    assert!(matches!(
        Segment::parse(".x"),
        Err(SegmentError::ContainsSeparator(_))
    ));
    assert!(matches!(
        Segment::parse("x."),
        Err(SegmentError::ContainsSeparator(_))
    ));
}

#[test]
fn segment_rejects_whitespace() {
    for bad in ["a b", " a", "a ", "a\tb", "a\nb", "\u{a0}a"] {
        assert!(
            matches!(Segment::parse(bad), Err(SegmentError::ContainsWhitespace(_))),
            "expected whitespace rejection for {bad:?}"
        );
    }
}

#[test]
fn segment_rejects_the_wildcard_tokens() {
    assert_eq!(
        Segment::parse("*").unwrap_err(),
        SegmentError::WildcardToken("*".into())
    );
    assert_eq!(
        Segment::parse(">").unwrap_err(),
        SegmentError::WildcardToken(">".into())
    );
}

#[test]
fn segment_rejects_wildcard_characters_inside_a_label() {
    match Segment::parse("a*b").unwrap_err() {
        SegmentError::IllegalChar { ch, index, .. } => {
            assert_eq!(ch, '*');
            assert_eq!(index, 1);
        }
        other => panic!("expected IllegalChar, got {other:?}"),
    }
    assert!(matches!(
        Segment::parse("a>b"),
        Err(SegmentError::IllegalChar { ch: '>', .. })
    ));
}

#[test]
fn segment_rejects_characters_outside_the_charset() {
    for (bad, ch, index) in [
        ("work/build", '/', 4),
        ("caf\u{e9}", '\u{e9}', 3),
        ("a:b", ':', 1),
        ("a+b", '+', 1),
        ("a$b", '$', 1),
    ] {
        match Segment::parse(bad).unwrap_err() {
            SegmentError::IllegalChar {
                ch: got_ch,
                index: got_index,
                ..
            } => {
                assert_eq!(got_ch, ch, "wrong char for {bad:?}");
                assert_eq!(got_index, index, "wrong index for {bad:?}");
            }
            other => panic!("expected IllegalChar for {bad:?}, got {other:?}"),
        }
    }
}

#[test]
fn segment_rejects_over_the_length_maximum() {
    let ok = "a".repeat(SEGMENT_MAX_LEN);
    assert!(Segment::parse(&ok).is_ok());
    let too_long = "a".repeat(SEGMENT_MAX_LEN + 1);
    match Segment::parse(&too_long).unwrap_err() {
        SegmentError::TooLong { len, .. } => assert_eq!(len, SEGMENT_MAX_LEN + 1),
        other => panic!("expected TooLong, got {other:?}"),
    }
}

#[test]
fn segment_accepts_the_documented_charset() {
    for good in ["a", "Z", "0", "helm-charts", "build_2", "MixedUp", "x-_-x"] {
        assert_eq!(seg(good).as_str(), good);
    }
}

#[test]
fn segment_is_case_sensitive_and_never_normalises() {
    assert_ne!(seg("Build"), seg("build"));
    assert_eq!(seg("Build").as_str(), "Build");
}

#[test]
fn segment_display_round_trips_through_from_str() {
    let s = seg("helm-charts");
    let back: Segment = s.to_string().parse().unwrap();
    assert_eq!(s, back);
}

#[test]
fn address_parses_and_displays_dot_joined() {
    let a = addr("work.acme.helm-charts.build");
    assert_eq!(a.to_string(), "work.acme.helm-charts.build");
    assert_eq!(a.depth(), 4);
    assert_eq!(a.leaf().as_str(), "build");
}

#[test]
fn address_rejects_the_empty_string() {
    assert_eq!(Address::parse("").unwrap_err(), AddressError::Empty);
}

#[test]
fn address_reports_the_failing_segment_and_its_index() {
    match Address::parse("work..build").unwrap_err() {
        AddressError::Segment { index, source } => {
            assert_eq!(index, 1);
            assert_eq!(source, SegmentError::Empty);
        }
        other => panic!("expected Segment error, got {other:?}"),
    }
    match Address::parse("work.a b.c").unwrap_err() {
        AddressError::Segment { index, source } => {
            assert_eq!(index, 1);
            assert!(matches!(source, SegmentError::ContainsWhitespace(_)));
        }
        other => panic!("expected Segment error, got {other:?}"),
    }
    match Address::parse("work.*.build").unwrap_err() {
        AddressError::Segment { index, source } => {
            assert_eq!(index, 1);
            assert!(matches!(source, SegmentError::WildcardToken(_)));
        }
        other => panic!("expected Segment error, got {other:?}"),
    }
}

#[test]
fn address_from_segments_rejects_an_empty_sequence() {
    assert_eq!(
        Address::from_segments(Vec::new()).unwrap_err(),
        AddressError::Empty
    );
    let a = Address::from_segments(vec![seg("work"), seg("build")]).unwrap();
    assert_eq!(a.to_string(), "work.build");
}

#[test]
fn address_parent_child_and_depth_compose() {
    let a = addr("work.acme");
    let child = a.child(seg("build"));
    assert_eq!(child.to_string(), "work.acme.build");
    assert_eq!(child.depth(), 3);
    assert_eq!(child.parent().unwrap(), a);
    assert_eq!(a.parent().unwrap(), Address::root(seg("work")));
}

#[test]
fn address_root_has_no_parent() {
    let root = Address::root(seg("work"));
    assert_eq!(root.depth(), 1);
    assert!(root.parent().is_none());
}

#[test]
fn address_starts_with_is_segment_wise_not_string_wise() {
    let a = addr("work.helm-charts.build");
    assert!(a.starts_with(&addr("work")));
    assert!(a.starts_with(&addr("work.helm-charts")));
    assert!(a.starts_with(&a));
    assert!(!a.starts_with(&addr("work.helm")));
    assert!(!addr("work").starts_with(&a));
}

#[test]
fn pattern_rejects_empty() {
    assert_eq!(Pattern::parse("").unwrap_err(), PatternError::Empty);
}

#[test]
fn pattern_tail_wildcard_must_be_final() {
    assert_eq!(
        Pattern::parse("work.>.build").unwrap_err(),
        PatternError::TailNotFinal { index: 1 }
    );
    assert_eq!(
        Pattern::parse(">.work").unwrap_err(),
        PatternError::TailNotFinal { index: 0 }
    );
    assert_eq!(
        Pattern::parse("a.>.>").unwrap_err(),
        PatternError::TailNotFinal { index: 1 }
    );
    assert!(Pattern::parse("work.>").is_ok());
    assert!(Pattern::parse(">").is_ok());
}

#[test]
fn pattern_reports_the_failing_token_and_its_index() {
    match Pattern::parse("work.a b.>").unwrap_err() {
        PatternError::Token { index, source } => {
            assert_eq!(index, 1);
            assert!(matches!(source, SegmentError::ContainsWhitespace(_)));
        }
        other => panic!("expected Token error, got {other:?}"),
    }
    match Pattern::parse("work..build").unwrap_err() {
        PatternError::Token { index, source } => {
            assert_eq!(index, 1);
            assert_eq!(source, SegmentError::Empty);
        }
        other => panic!("expected Token error, got {other:?}"),
    }
}

#[test]
fn pattern_literal_matches_itself_and_nothing_else() {
    let p = pat("work.build");
    assert!(p.matches(&addr("work.build")));
    assert!(!p.matches(&addr("work.Build")));
    assert!(!p.matches(&addr("work")));
    assert!(!p.matches(&addr("work.build.extra")));
    assert!(!p.matches(&addr("other.build")));
}

#[test]
fn pattern_star_matches_exactly_one_segment() {
    let p = pat("work.*.build");
    assert!(p.matches(&addr("work.acme.build")));
    assert!(p.matches(&addr("work.x.build")));
    assert!(!p.matches(&addr("work.build")));
    assert!(!p.matches(&addr("work.a.b.build")));

    let trailing = pat("work.*");
    assert!(trailing.matches(&addr("work.build")));
    assert!(!trailing.matches(&addr("work")));
    assert!(!trailing.matches(&addr("work.build.deep")));
}

#[test]
fn pattern_tail_matches_one_or_more_but_never_zero() {
    let p = pat("work.>");
    assert!(p.matches(&addr("work.build")));
    assert!(p.matches(&addr("work.acme.helm-charts.build")));
    assert!(!p.matches(&addr("work")));
    assert!(!p.matches(&addr("other.build")));

    let everything = pat(">");
    assert!(everything.matches(&addr("work")));
    assert!(everything.matches(&addr("work.a.b.c")));
}

#[test]
fn pattern_mixes_literals_stars_and_a_tail() {
    let p = pat("work.*.helm-charts.>");
    assert!(p.matches(&addr("work.acme.helm-charts.build")));
    assert!(p.matches(&addr("work.pleme.helm-charts.a.b")));
    assert!(!p.matches(&addr("work.acme.helm-charts")));
    assert!(!p.matches(&addr("work.acme.other.build")));
    assert!(!p.matches(&addr("work.helm-charts.build")));
}

#[test]
fn pattern_display_round_trips_through_from_str() {
    for src in ["work.build", "work.*.build", "work.>", ">", "*"] {
        let p = pat(src);
        assert_eq!(p.to_string(), src);
        let back: Pattern = p.to_string().parse().unwrap();
        assert_eq!(p, back);
    }
}

#[test]
fn pattern_exact_matches_only_its_own_address() {
    let a = addr("work.acme.build");
    let p = Pattern::exact(&a);
    assert_eq!(p.to_string(), a.to_string());
    assert!(p.matches(&a));
    assert!(!p.matches(&addr("work.acme")));
    assert!(!p.matches(&addr("work.acme.build.x")));
    assert_eq!(p.tokens().len(), 3);
}


#[test]
fn an_illegal_character_is_reported_before_an_excess_of_length() {
    let bad = format!("{}!", "a".repeat(SEGMENT_MAX_LEN + 5));
    assert!(matches!(Segment::parse(&bad), Err(SegmentError::IllegalChar { ch: '!', .. })));
}

#[test]
fn a_pattern_reports_a_bad_token_before_an_early_tail() {
    assert!(matches!(
        Pattern::parse("a b.>.c"),
        Err(PatternError::Token { index: 0, .. })
    ));
    assert_eq!(Pattern::parse(">.a b").unwrap_err(), PatternError::TailNotFinal { index: 0 });
}

#[test]
fn white_space_is_what_unicode_says() {
    let mut found: Vec<u32> = Vec::new();
    for n in 0..0x1_0000_u32 {
        if let Some(c) = char::from_u32(n) {
            if matches!(Segment::parse(&c.to_string()), Err(SegmentError::ContainsWhitespace(_))) {
                found.push(n);
            }
        }
    }
    let mut expected: Vec<u32> = (0x9..=0xd).collect();
    expected.extend([0x20, 0x85, 0xa0, 0x1680]);
    expected.extend(0x2000..=0x200a);
    expected.extend([0x2028, 0x2029, 0x202f, 0x205f, 0x3000]);
    assert_eq!(found, expected);
}

#[test]
fn a_wildcard_prints_as_it_is_written() {
    assert_eq!((WILDCARD_ONE, WILDCARD_TAIL), ("*", ">"));
    assert_eq!(PatternToken::One.to_string(), WILDCARD_ONE);
    assert_eq!(PatternToken::Tail.to_string(), WILDCARD_TAIL);
    assert_eq!(PatternToken::Literal(seg("work")).to_string(), "work");
}

#[test]
fn every_parse_error_has_its_message() {
    let seg_msg = |s: &str| Segment::parse(s).unwrap_err().to_string();
    assert_eq!(seg_msg(""), "segment is empty");
    assert_eq!(seg_msg("a.b"), "segment `a.b` contains the `.` separator");
    assert_eq!(seg_msg("a b"), "segment `a b` contains whitespace");
    assert_eq!(seg_msg("*"), "`*` is a pattern wildcard, not a label");
    assert_eq!(
        seg_msg("ab/c"),
        "segment `ab/c`: illegal character `/` at byte 2; allowed: a-z A-Z 0-9 `-` `_`"
    );
    let long = "x".repeat(65);
    assert_eq!(
        seg_msg(&long),
        format!("segment `{long}` is 65 bytes, over the 64 byte maximum")
    );
    let addr_msg = |s: &str| Address::parse(s).unwrap_err().to_string();
    assert_eq!(addr_msg(""), "address is empty");
    assert_eq!(addr_msg("a..b"), "address segment 1: segment is empty");
    let pat_msg = |s: &str| Pattern::parse(s).unwrap_err().to_string();
    assert_eq!(pat_msg(""), "pattern is empty");
    assert_eq!(
        pat_msg("a.>.b"),
        "`>` at token 1 is not final; the tail wildcard is legal only last"
    );
    assert_eq!(pat_msg("a.b c"), "pattern token 1: segment `b c` contains whitespace");
}

#[test]
fn a_copy_of_a_parse_error_is_the_same_error() {
    for s in ["", "a.b", "a b", ">", "a!", &"y".repeat(70)] {
        let e = Segment::parse(s).unwrap_err();
        assert_eq!(e.clone(), e);
    }
    let e = Address::parse("a.!").unwrap_err();
    assert_eq!(e.clone(), e);
    assert_eq!(AddressError::Empty.clone(), AddressError::Empty);
    for s in ["", ">.a", "a.!"] {
        let e = Pattern::parse(s).unwrap_err();
        assert_eq!(e.clone(), e);
    }
}
