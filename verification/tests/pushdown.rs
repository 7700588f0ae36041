use theodb_am::pushdown::{filter_terms, zone_literal, Pushed, ZoneLiteral};

#[test]
fn temporal_constants_get_their_own_literals() {
    assert_eq!(zone_literal(1114), ZoneLiteral::Timestamp);
    assert_eq!(zone_literal(1184), ZoneLiteral::Timestamp);
    assert_eq!(zone_literal(1082), ZoneLiteral::Date);
    assert_eq!(zone_literal(23), ZoneLiteral::ByKind);
}

#[test]
fn only_applicable_predicates_become_terms() {
    let ps = [
        Pushed::Zone { col: 0, atttypid: 23, has_kind: true },
        Pushed::Zone { col: 1, atttypid: 25, has_kind: false },
        Pushed::Zone { col: 2, atttypid: 1082, has_kind: false },
        Pushed::Zone { col: 9, atttypid: 23, has_kind: true },
        Pushed::Text { col: 1 },
        Pushed::Text { col: 3 },
        Pushed::InList { col: 0, nconsts: 0 },
        Pushed::InList { col: 2, nconsts: 2 },
    ];
    assert_eq!(filter_terms(&ps, 3), vec![0, 2, 4, 7]);
    assert!(filter_terms(&ps, 0).is_empty());
}
