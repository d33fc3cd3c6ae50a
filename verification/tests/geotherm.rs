use cryotherm::geotherm_core;
use cryotherm::geotherm_core::thomas;

#[test]
fn standalone_kernel_needs_scratch_of_n() {
    assert_eq!(geotherm_core::check_dimensions(2, 3, 2, 3, 3, 3), Ok(3));
    assert_eq!(
        geotherm_core::check_dimensions(2, 3, 2, 3, 3, 2),
        Err(geotherm_core::ThomasError::InvalidDimensions)
    );
    assert_eq!(
        geotherm_core::check_dimensions(0, 0, 0, 0, 0, 0),
        Err(geotherm_core::ThomasError::InvalidDimensions)
    );
    assert_eq!(
        geotherm_core::check_dimensions(1, 3, 2, 3, 3, 3),
        Err(geotherm_core::ThomasError::InvalidDimensions)
    );
}

#[test]
fn thomas_kernel_needs_scratch_of_n_minus_one() {
    assert_eq!(thomas::check_dimensions(2, 3, 2, 3, 3, 2), Ok(3));
    assert_eq!(
        thomas::check_dimensions(2, 3, 2, 3, 3, 1),
        Err(thomas::ThomasError::InvalidDimensions)
    );
    assert_eq!(
        thomas::check_dimensions(2, 3, 2, 3, 4, 3),
        Err(thomas::ThomasError::InvalidDimensions)
    );
}
