use typos::modes::{split_modes, WordMode};
use typos::modes::WordMode::{Boundary, Lowercase, Number, Uppercase};

#[test]
fn classify_by_case_and_digit() {
    assert_eq!(WordMode::classify('a'), Lowercase);
    assert_eq!(WordMode::classify('Z'), Uppercase);
    assert_eq!(WordMode::classify('7'), Number);
    assert_eq!(WordMode::classify('_'), Boundary);
    assert_eq!(WordMode::classify('\''), Boundary);
    assert_eq!(WordMode::classify('\u{e9}'), Lowercase);
    assert_eq!(WordMode::classify('\u{c9}'), Uppercase);
    assert_eq!(WordMode::classify('\u{65e5}'), Boundary);
    assert_eq!(WordMode::classify('\u{663}'), Boundary);
}

#[test]
fn spans_of_no_classes() {
    assert!(split_modes(&[]).is_empty());
    assert!(split_modes(&[Boundary, Boundary]).is_empty());
}

#[test]
fn spans_end_at_every_transition() {
    assert_eq!(split_modes(&[Lowercase, Lowercase]), vec![(0, 2)]);
    assert_eq!(split_modes(&[Lowercase, Uppercase]), vec![(0, 1), (1, 2)]);
    assert_eq!(split_modes(&[Uppercase, Lowercase]), vec![(0, 2)]);
    assert_eq!(split_modes(&[Lowercase, Number]), vec![(0, 1), (1, 2)]);
    assert_eq!(split_modes(&[Uppercase, Number]), vec![(0, 1), (1, 2)]);
    assert_eq!(split_modes(&[Number, Lowercase]), vec![(0, 1), (1, 2)]);
    assert_eq!(split_modes(&[Number, Uppercase]), vec![(0, 1), (1, 2)]);
    assert_eq!(split_modes(&[Number, Number]), vec![(0, 2)]);
    assert_eq!(split_modes(&[Lowercase, Boundary, Lowercase]), vec![(0, 1), (2, 3)]);
    assert_eq!(split_modes(&[Boundary, Uppercase, Boundary]), vec![(1, 2)]);
}

#[test]
fn spans_of_capital_runs() {
    // PDFLoader
    assert_eq!(
        split_modes(&[
            Uppercase, Uppercase, Uppercase, Uppercase, Lowercase, Lowercase, Lowercase, Lowercase,
            Lowercase
        ]),
        vec![(0, 3), (3, 9)]
    );
    // ABc
    assert_eq!(split_modes(&[Uppercase, Uppercase, Lowercase]), vec![(0, 1), (1, 3)]);
    // aBCd
    assert_eq!(
        split_modes(&[Lowercase, Uppercase, Uppercase, Lowercase]),
        vec![(0, 1), (1, 2), (2, 4)]
    );
    // HTML
    assert_eq!(split_modes(&[Uppercase, Uppercase, Uppercase, Uppercase]), vec![(0, 4)]);
    // AB_c
    assert_eq!(split_modes(&[Uppercase, Uppercase, Boundary, Lowercase]), vec![(0, 2), (3, 4)]);
}
