use hangar_application::error::{signed_decimal, ApplicationError, DomainError};

#[test]
fn errors_read_as_the_user_sees_them() {
    assert_eq!(ApplicationError::UsernameTaken.message(), "username already taken");
    assert_eq!(ApplicationError::InvalidEmail("x".into()).message(), "invalid email address: x");
    assert_eq!(
        ApplicationError::DockerDigestMismatch { expected: "a".into(), computed: "b".into() }.message(),
        "digest mismatch: expected a, computed b"
    );
    assert_eq!(
        ApplicationError::DockerChunkOffsetMismatch { expected: 10, got: -3 }.message(),
        "chunk offset mismatch: expected to start at 10, got -3"
    );
    assert_eq!(ApplicationError::Domain(DomainError::Infrastructure("db down".into())).message(), "db down");
}

#[test]
fn integers_are_written_in_decimal() {
    assert_eq!(signed_decimal(0), "0");
    assert_eq!(signed_decimal(i64::MIN), "-9223372036854775808");
    assert_eq!(signed_decimal(1234), "1234");
}
