use hangar_application::mfa::{backup_codes_from_bytes, RegenerateBackupCodesUseCase, check_code_at, check_current_code, CLOCK_OUT_OF_RANGE};
use hangar_application::error::{ApplicationError, DomainError};
use hangar_application::mfa::{
    generate_backup_codes, generate_current_totp_code, generate_secret_base32, generate_totp_code_after_step, hash_backup_code,
    try_generate_current_totp_code, try_generate_totp_code_after_step, ConfirmTotpUseCase, EnrollTotpUseCase, GetMfaStatusUseCase,
    TotpCredential, VerifyTotpUseCase, BACKUP_CODE_COUNT,
};

fn credential(confirmed: bool, last: Option<i64>) -> TotpCredential {
    TotpCredential { user_id: 1, secret: generate_secret_base32(), confirmed, last_used_step: last, created_at: 0 }
}

#[test]
fn a_generated_secret_yields_six_digit_codes() {
    let secret = generate_secret_base32();
    let code = generate_current_totp_code(&secret);
    assert_eq!(code.len(), 6);
    assert!(code.chars().all(|c| c.is_ascii_digit()));
    assert_eq!(try_generate_current_totp_code(&secret).unwrap().len(), 6);
    assert_eq!(generate_totp_code_after_step(&secret, 5), try_generate_totp_code_after_step(&secret, 5).unwrap());
}

#[test]
fn an_unusable_secret_yields_no_code() {
    assert_eq!(try_generate_current_totp_code("not base32!"), None);
    assert_eq!(try_generate_totp_code_after_step(&generate_secret_base32(), -1), None);
}

#[test]
fn backup_codes_are_stored_hashed() {
    let (codes, hashes) = generate_backup_codes();
    assert_eq!(codes.len(), BACKUP_CODE_COUNT);
    for (code, hash) in codes.iter().zip(hashes.iter()) {
        assert_eq!(code.len(), 10);
        assert_eq!(&hash_backup_code(code), hash);
    }
}

#[test]
fn enrolling_twice_once_confirmed_is_refused() {
    let use_case = EnrollTotpUseCase::new();
    assert_eq!(use_case.execute(Some(credential(true, None)), 1, "bob", 0).unwrap_err(), ApplicationError::MfaAlreadyEnabled);
    let (cred, enrollment) = use_case.execute(Some(credential(false, None)), 1, "bob", 0).unwrap();
    assert!(!cred.confirmed);
    assert_eq!(cred.secret, enrollment.secret_base32);
}

#[test]
fn confirming_needs_an_enrollment_and_a_matching_code() {
    let use_case = ConfirmTotpUseCase::new();
    assert_eq!(use_case.execute(None, Some(3)), Err(ApplicationError::MfaNotEnrolled));
    assert_eq!(use_case.execute(Some(credential(false, None)), None), Err(ApplicationError::InvalidMfaCode));
    let confirmed = use_case.execute(Some(credential(false, None)), Some(3)).unwrap();
    assert!(confirmed.confirmed);
    assert_eq!(confirmed.last_used_step, Some(3));
}

#[test]
fn a_code_step_already_used_is_refused() {
    let use_case = VerifyTotpUseCase::new();
    assert_eq!(use_case.accept_step(Some(10), Some(10)), Err(ApplicationError::InvalidMfaCode));
    assert_eq!(use_case.accept_step(Some(10), Some(11)), Ok(11));
    assert_eq!(use_case.accept_step(None, Some(0)), Ok(0));
    assert_eq!(use_case.credential(Some(credential(false, None))), Err(ApplicationError::MfaNotEnrolled));
}

#[test]
fn the_status_reports_totp_only_once_confirmed() {
    let use_case = GetMfaStatusUseCase::new();
    assert!(!use_case.execute(Some(credential(false, None)), 0, 0).totp_enabled);
    let status = use_case.execute(Some(credential(true, None)), 7, 2);
    assert!(status.totp_enabled);
    assert_eq!(status.backup_codes_remaining, 7);
}

#[test]
fn the_current_code_is_found_in_the_current_window() {
    let secret = generate_secret_base32();
    let code = generate_current_totp_code(&secret);
    assert!(check_current_code(&secret, "bob", &code).unwrap().is_some());
    assert!(check_current_code("not base32!", "bob", &code).is_err());
}

#[test]
fn a_code_is_checked_against_the_window_of_the_given_time() {
    let secret = generate_secret_base32();
    // The code of step 1_000_001 (time 30_000_030).
    let code = generate_totp_code_after_step(&secret, 1_000_000);
    assert_eq!(check_code_at(&secret, "bob", &code, 30_000_030), Ok(Some(1_000_001)));
    // One step of skew either side.
    assert_eq!(check_code_at(&secret, "bob", &code, 30_000_000), Ok(Some(1_000_001)));
    assert_eq!(check_code_at(&secret, "bob", &code, 30_000_060), Ok(Some(1_000_001)));
    assert_eq!(
        check_code_at(&secret, "bob", &code, u64::MAX),
        Err(ApplicationError::Domain(DomainError::Infrastructure(CLOCK_OUT_OF_RANGE.to_string())))
    );
    assert!(matches!(
        check_code_at(&secret, "bo:b", &code, 30_000_030),
        Err(ApplicationError::Domain(DomainError::Infrastructure(_)))
    ));
}

#[test]
fn backup_codes_are_the_hex_of_their_draws_with_their_hashes() {
    let (codes, hashes) = backup_codes_from_bytes(&vec![vec![0, 1, 2, 3, 255], vec![16, 32, 48, 64, 80]]);
    assert_eq!(codes, vec!["00010203ff".to_string(), "1020304050".to_string()]);
    assert_eq!(hashes[0], "69818696fe75d2f4e4f8037a62f4b16a87f6066aed86dd32e8ad4d7708854ec6");
    assert_eq!(hashes[1], hash_backup_code("1020304050"));
}

#[test]
fn enrolling_succeeds_for_a_name_without_a_colon() {
    let uc = EnrollTotpUseCase::new();
    let (cred, shown) = uc.execute(None, 1, "bob", 5).unwrap();
    assert!(!cred.confirmed);
    assert_eq!(cred.secret, shown.secret_base32);
    assert_eq!(shown.secret_base32.len(), 32);
    assert!(shown.otpauth_url.starts_with("otpauth://totp/"));
    assert!(uc.execute(None, 1, "bo:b", 5).is_err());
    assert!(uc.execute(None, 1, "", 5).is_err());
}

#[test]
fn confirming_with_the_code_of_the_window_gives_the_backup_codes() {
    let uc = ConfirmTotpUseCase::new();
    let cred = credential(false, None);
    let code = generate_totp_code_after_step(&cred.secret, 999);
    let (confirmed, codes, hashes) = uc.confirm_at(Some(cred.clone()), "bob", &code, 30_000).unwrap();
    assert!(confirmed.confirmed);
    assert_eq!(confirmed.last_used_step, Some(1000));
    assert_eq!(codes.len(), BACKUP_CODE_COUNT);
    assert!(codes.iter().all(|c| c.len() == 10));
    assert_eq!(hashes[0], hash_backup_code(&codes[0]));
    assert_eq!(uc.confirm_at(None, "bob", &code, 30_000).err(), Some(ApplicationError::MfaNotEnrolled));
    // The same code, far outside its window.
    assert_eq!(uc.confirm_at(Some(cred), "bob", &code, 90_000_000).err(), Some(ApplicationError::InvalidMfaCode));
}

#[test]
fn regenerating_with_the_password_and_a_confirmed_credential_gives_a_fresh_set() {
    let uc = RegenerateBackupCodesUseCase::new();
    let user = hangar_application::model::User {
        id: 1,
        username: "bob".into(),
        password_hash: "h".into(),
        is_super_admin: false,
        is_organization_admin: false,
        organization_id: 1,
        created_at: 0,
        tokens_valid_after: 0,
        email: None,
    };
    let (codes, hashes) = uc.execute(Some(user.clone()), true, Some(credential(true, None))).unwrap();
    assert_eq!(codes.len(), BACKUP_CODE_COUNT);
    assert!(codes.iter().all(|c| c.len() == 10 && c.chars().all(|ch| ch.is_ascii_hexdigit())));
    assert_eq!(hashes[9], hash_backup_code(&codes[9]));
    assert_eq!(uc.execute(Some(user), false, Some(credential(true, None))).err(), Some(ApplicationError::InvalidCredentials));
}
