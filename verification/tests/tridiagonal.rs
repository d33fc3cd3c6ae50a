use cryotherm::math::tridiagonal::{
    check_dimensions, check_request, dominance_verdict, off_diagonal_len, DominanceScan,
};
use cryotherm::Error;

#[test]
fn dimensions_of_a_three_by_three_system_fit() {
    assert_eq!(check_dimensions(2, 3, 2, 3, 3, 2), Ok(3));
    assert_eq!(check_dimensions(2, 3, 2, 3, 3, 7), Ok(3));
    assert_eq!(check_dimensions(0, 1, 0, 1, 1, 0), Ok(1));
}

#[test]
fn dimensions_reject_n_zero() {
    assert_eq!(check_dimensions(0, 0, 0, 0, 0, 0), Err(Error::InvalidDimensions));
}

#[test]
fn dimensions_reject_each_wrong_length() {
    assert_eq!(check_dimensions(1, 3, 2, 3, 3, 2), Err(Error::InvalidDimensions));
    assert_eq!(check_dimensions(2, 2, 2, 3, 3, 2), Err(Error::InvalidDimensions));
    assert_eq!(check_dimensions(2, 3, 1, 3, 3, 2), Err(Error::InvalidDimensions));
    assert_eq!(check_dimensions(2, 3, 2, 2, 3, 2), Err(Error::InvalidDimensions));
    assert_eq!(check_dimensions(2, 3, 2, 3, 2, 2), Err(Error::InvalidDimensions));
    assert_eq!(check_dimensions(2, 3, 2, 3, 3, 1), Err(Error::InvalidDimensions));
}

#[test]
fn dominance_accepts_when_rows_hold() {
    assert_eq!(dominance_verdict(&[true, true, true], &[true, false, true]), Ok(()));
}

#[test]
fn dominance_accepts_when_columns_hold() {
    assert_eq!(dominance_verdict(&[true, false, true], &[true, true, true]), Ok(()));
}

#[test]
fn dominance_refuses_when_a_row_and_a_column_fail() {
    assert_eq!(
        dominance_verdict(&[false, true, true], &[true, true, false]),
        Err(Error::UnstableSystem)
    );
    assert_eq!(dominance_verdict(&[false], &[false]), Err(Error::UnstableSystem));
}

#[test]
fn request_range_is_checked() {
    assert_eq!(check_request(0, 3), Err(Error::InvalidDimensions));
    assert_eq!(check_request(4, 3), Err(Error::InvalidDimensions));
    assert_eq!(check_request(3, 3), Ok(2));
    assert_eq!(check_request(1, 3), Ok(0));
    assert_eq!(check_request(1, 0), Err(Error::InvalidDimensions));
}

#[test]
fn off_diagonal_length_saturates() {
    assert_eq!(off_diagonal_len(0), 0);
    assert_eq!(off_diagonal_len(1), 0);
    assert_eq!(off_diagonal_len(10), 9);
}

#[test]
fn scan_stops_at_first_row_where_both_failed() {
    let mut scan = DominanceScan::new();
    assert!(scan.row_pending() && scan.col_pending());
    assert_eq!(scan.record(false, true), Ok(()));
    assert!(!scan.row_pending());
    assert!(scan.col_pending());
    // A row outcome after the rows failed is not looked at.
    assert_eq!(scan.record(true, true), Ok(()));
    assert!(!scan.row_pending());
    assert_eq!(scan.record(true, false), Err(Error::UnstableSystem));
}

#[test]
fn empty_outcomes_are_accepted() {
    assert_eq!(dominance_verdict(&[], &[]), Ok(()));
}
