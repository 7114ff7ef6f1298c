use pes::range::{Range, SemVerRange};
use pes::release_type::ReleaseType;
use pes::semantic_version::SemanticVersion;

#[test]
#[allow(non_snake_case)]
fn frm_str__when_given_valid_str_returns_ok() {
    let ranges = &[
        (
            "1.2.3+<4",
            Range::between(
                SemanticVersion::new(1, 2, 3, ReleaseType::Release),
                SemanticVersion::new(4, 0, 0, ReleaseType::Release),
            ),
        ),
        (
            "1.2.3-beta+<4",
            Range::between(
                SemanticVersion::new(1, 2, 3, ReleaseType::Beta),
                SemanticVersion::new(4, 0, 0, ReleaseType::Release),
            ),
        ),
        (
            "^1",
            Range::between(
                SemanticVersion::new(1, 0, 0, ReleaseType::Release),
                SemanticVersion::new(2, 0, 0, ReleaseType::Release),
            ),
        ),
        (
            "^0.1",
            Range::between(
                SemanticVersion::new(0, 1, 0, ReleaseType::Release),
                SemanticVersion::new(0, 2, 0, ReleaseType::Release),
            ),
        ),
        ("2.0.2", Range::exact(SemanticVersion::new(2, 0, 2, ReleaseType::Release))),
    ];

    for range_tup in ranges {
        let range = SemVerRange::frm_str(range_tup.0);
        assert!(range.is_ok());

        assert_eq!(range.unwrap(), range_tup.1);
    }
}

#[test]
fn frm_str_rejects_trailing_text() {
    assert!(SemVerRange::frm_str("1.2.3+<4 x").is_err());
    assert_eq!(SemVerRange::frm_str("  ^2.1  "), Ok(Range::between(
        SemanticVersion::new(2, 1, 0, ReleaseType::Release),
        SemanticVersion::new(2, 2, 0, ReleaseType::Release),
    )));
}

#[test]
fn ranges_hold_what_lies_between_their_bounds() {
    let r = Range::between(
        SemanticVersion::new(1, 2, 3, ReleaseType::Release),
        SemanticVersion::new(4, 0, 0, ReleaseType::Release),
    );
    assert!(r.holds(&SemanticVersion::new(1, 2, 3, ReleaseType::Release)));
    assert!(r.holds(&SemanticVersion::new(3, 9, 9, ReleaseType::Release)));
    assert!(!r.holds(&SemanticVersion::new(4, 0, 0, ReleaseType::Release)));
    assert!(!r.holds(&SemanticVersion::new(1, 2, 3, ReleaseType::Beta)));
    let e = Range::exact(SemanticVersion::new(2, 0, 2, ReleaseType::Beta));
    assert!(e.holds(&SemanticVersion::new(2, 0, 2, ReleaseType::Beta)));
    assert!(!e.holds(&SemanticVersion::new(2, 0, 2, ReleaseType::Release)));
}
