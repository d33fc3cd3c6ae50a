use cryotherm::Error;

#[test]
fn display_messages_stable() {
    assert_eq!(
        Error::InvalidDimensions.to_string(),
        "incompatible dimensions"
    );
    assert_eq!(
        Error::UnstableSystem.to_string(),
        "tridiagonal system is not strictly diagonally dominant",
    );
}

#[test]
fn variants_are_copy_and_eq() {
    let e = Error::InvalidDimensions;
    let f = e;
    assert_eq!(e, f);
    assert_ne!(Error::InvalidDimensions, Error::UnstableSystem);
}
