use puppet_forge_updates::text::{chars_of, split_chars, Separator};
use puppet_forge_updates::version::{ParseError, Version};

#[test]
fn test_version_from() {
    let version = Version::from("1.2.3");
    assert_eq!(version.major, 1, "Major version should be 1");
    assert_eq!(version.minor, 2, "Minor version should be 2");
    assert_eq!(version.patch, 3, "Patch version should be 3");
}

#[test]
fn test_version_to_string() {
    let version = Version {
        major: 1,
        minor: 2,
        patch: 3,
    };
    assert_eq!(
        version.to_string(),
        "1.2.3",
        "Version string should be '1.2.3'"
    );
}

#[test]
#[should_panic]
fn test_version_from_invalid() {
    // Should panic if version string is invalid
    let _ = Version::from("1.2");
}

#[test]
fn test_version_display() {
    let version = Version {
        major: 4,
        minor: 5,
        patch: 6,
    };
    assert_eq!(
        version.to_string(),
        "4.5.6",
        "Display output should be '4.5.6'"
    );
}

#[test]
fn parse_accepts_three_numbers() {
    assert_eq!(
        Version::parse("10.0.4294967295"),
        Ok(Version {
            major: 10,
            minor: 0,
            patch: 4294967295
        })
    );
    assert_eq!(
        Version::parse("0.0.0"),
        Ok(Version {
            major: 0,
            minor: 0,
            patch: 0
        })
    );
}

#[test]
fn parse_counts_the_parts() {
    assert_eq!(Version::parse("1.2"), Err(ParseError::Parts(2)));
    assert_eq!(Version::parse("1.2.3.4"), Err(ParseError::Parts(4)));
    assert_eq!(Version::parse(""), Err(ParseError::Parts(1)));
    assert_eq!(Version::parse("7"), Err(ParseError::Parts(1)));
    assert_eq!(Version::parse("1.2.3."), Err(ParseError::Parts(4)));
}

#[test]
fn parse_names_the_part_that_is_no_number() {
    assert_eq!(Version::parse("a.2.3"), Err(ParseError::Major));
    assert_eq!(Version::parse(".2.3"), Err(ParseError::Major));
    assert_eq!(Version::parse("-1.2.3"), Err(ParseError::Major));
    assert_eq!(Version::parse("1.x.3"), Err(ParseError::Minor));
    assert_eq!(Version::parse("1..3"), Err(ParseError::Minor));
    assert_eq!(Version::parse("1.2.3-rc1"), Err(ParseError::Patch));
    assert_eq!(Version::parse("1.2. 3"), Err(ParseError::Patch));
    assert_eq!(Version::parse("1.2.+"), Err(ParseError::Patch));
    assert_eq!(Version::parse("x.y.z"), Err(ParseError::Major));
}

#[test]
fn parse_rejects_numbers_beyond_u32() {
    assert_eq!(Version::parse("4294967296.0.0"), Err(ParseError::Major));
    assert_eq!(Version::parse("0.99999999999999999999.0"), Err(ParseError::Minor));
    assert_eq!(
        Version::parse("4294967295.4294967295.4294967295"),
        Ok(Version {
            major: u32::MAX,
            minor: u32::MAX,
            patch: u32::MAX
        })
    );
}

#[test]
fn parse_allows_a_plus_sign_and_leading_zeros() {
    let expected = Ok(Version {
        major: 1,
        minor: 2,
        patch: 3,
    });
    assert_eq!(Version::parse("+1.2.3"), expected);
    assert_eq!(Version::parse("01.002.0000000000000003"), expected);
    assert_eq!(Version::parse("++1.2.3"), Err(ParseError::Major));
}

#[test]
fn parse_agrees_with_the_standard_number_parser() {
    let parts = ["0", "7", "+7", "007", "", "+", "-", "-0", "1 ", "4294967295", "4294967296", "١"];
    for part in parts {
        let text = format!("{}.0.0", part);
        let expected = part.parse::<u32>().ok();
        assert_eq!(Version::parse(&text).ok().map(|v| v.major), expected);
    }
}

#[test]
fn shortest_text_round_trips() {
    for text in ["1.2.3", "0.0.0", "10.20.30", "4294967295.0.1", "100.0.100"] {
        let version = Version::parse(text).unwrap();
        assert_eq!(version.to_string(), text);
    }
}

#[test]
fn rendered_version_parses_back() {
    for version in [
        Version { major: 0, minor: 0, patch: 0 },
        Version { major: 9, minor: 10, patch: 11 },
        Version { major: u32::MAX, minor: 1000, patch: 99 },
    ] {
        assert_eq!(Version::parse(&version.to_string()), Ok(version));
        assert_eq!(Version::parse_chars(&chars_of(&version.to_string())), Ok(version));
    }
}

#[test]
fn longer_text_does_not_round_trip() {
    let version = Version::parse("01.2.3").unwrap();
    assert_eq!(version.to_string(), "1.2.3");
}

#[test]
fn to_string_writes_every_digit() {
    let version = Version {
        major: 1234567890,
        minor: 0,
        patch: 40,
    };
    assert_eq!(version.to_string(), "1234567890.0.40");
}

#[test]
fn chars_of_keeps_every_character() {
    assert_eq!(chars_of("a.b"), vec!['a', '.', 'b']);
    assert_eq!(chars_of(""), Vec::<char>::new());
    assert_eq!(chars_of("é\n"), vec!['é', '\n']);
}

#[test]
fn split_chars_keeps_empty_pieces() {
    let pieces = split_chars(&chars_of("1..2."), Separator::Mark('.'));
    assert_eq!(pieces, vec![vec!['1'], vec![], vec!['2'], vec![]]);
    let pieces = split_chars(&chars_of(""), Separator::Mark('.'));
    assert_eq!(pieces, vec![Vec::<char>::new()]);
    let pieces = split_chars(&chars_of("a \tb"), Separator::Space);
    assert_eq!(pieces, vec![vec!['a'], vec![], vec!['b']]);
}

#[test]
fn releases_are_ordered_number_by_number() {
    let a = Version { major: 1, minor: 9, patch: 9 };
    let b = Version { major: 2, minor: 0, patch: 0 };
    let c = Version { major: 2, minor: 0, patch: 1 };
    let d = Version { major: 2, minor: 1, patch: 0 };
    assert!(a < b && b < c && c < d && a < d);
    assert!(!(b < a) && !(a < a) && a <= a && d > c);
    assert_eq!(a.partial_cmp(&b), Some(std::cmp::Ordering::Less));
    assert_eq!(b.partial_cmp(&a), Some(std::cmp::Ordering::Greater));
    assert_eq!(c.partial_cmp(&c), Some(std::cmp::Ordering::Equal));
    assert!(a.precedes(&b));
    assert!(!b.precedes(&a));
    assert!(!b.precedes(&b));
}
