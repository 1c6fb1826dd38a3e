use forum::{verify_identity, AppError, AuthError, Claims};

fn claims(exp_from: u64) -> Claims {
    Claims::new(7, "Nick".to_string(), "nick".to_string(), exp_from)
}

#[test]
fn claims_last_a_day() {
    let c = claims(1_000);
    assert_eq!(c.cuid, 7);
    assert_eq!(c.exp, 1_000 + 86_400);
    assert_eq!(c.username, "nick");
    assert_eq!(c.nickname, "Nick");
    assert_eq!(claims(u64::MAX - 5).exp, u64::MAX);
}

#[test]
fn identity_checks() {
    assert_eq!(
        verify_identity(false, Some(claims(0)), 10).unwrap_err(),
        AuthError::MissingCredentials
    );
    assert_eq!(verify_identity(true, None, 10).unwrap_err(), AuthError::InvalidToken);
    let ok = verify_identity(true, Some(claims(0)), 86_399).unwrap();
    assert_eq!(ok.cuid, 7);
    assert_eq!(
        verify_identity(true, Some(claims(0)), 86_400).unwrap_err(),
        AuthError::ExpiredToken
    );
}

#[test]
fn error_statuses_and_messages() {
    assert_eq!(AppError::NotFound.status_code(), 404);
    assert_eq!(AppError::Forbidden.status_code(), 403);
    assert_eq!(AppError::Duplicate.status_code(), 409);
    assert_eq!(AppError::Invalid.status_code(), 422);
    assert_eq!(AppError::Internal.status_code(), 500);
    assert_eq!(AppError::Auth(AuthError::InvalidToken).status_code(), 401);
    assert_eq!(AppError::Auth(AuthError::TokenCreation).status_code(), 500);
    assert_eq!(AuthError::MissingCredentials.message(), "Missing credentials.");
    assert_eq!(AppError::Duplicate.message(), "Duplicate entry.");
    assert_eq!(AppError::from(AuthError::ExpiredToken), AppError::Auth(AuthError::ExpiredToken));
}
