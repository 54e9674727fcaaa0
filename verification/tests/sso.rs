use hangar_application::model::User;
use hangar_application::sso::{derive_username_candidate, username_attempt, ProvisionSsoUserUseCase, UsernameAction};
use hangar_application::error::ApplicationError;

#[test]
fn the_local_part_is_lowercased_and_filtered() {
    assert_eq!(derive_username_candidate("Jean.Dupont@example.com"), "jeandupont");
    assert_eq!(derive_username_candidate("a_b-c@x"), "a_b-c");
}

#[test]
fn a_candidate_not_starting_with_a_letter_gets_a_u_prefix() {
    assert_eq!(derive_username_candidate("42jean@x"), "u42jean");
    assert_eq!(derive_username_candidate("_x@x"), "u_x");
}

#[test]
fn a_short_candidate_is_padded() {
    assert_eq!(derive_username_candidate("a@x"), "a-user");
    assert_eq!(derive_username_candidate("@x"), "u-user");
    assert_eq!(derive_username_candidate(""), "u-user");
}

#[test]
fn a_long_candidate_is_cut_to_32_characters() {
    let email = format!("{}@x", "a".repeat(40));
    assert_eq!(derive_username_candidate(&email), "a".repeat(32));
}

#[test]
fn an_address_without_at_sign_is_used_whole() {
    assert_eq!(derive_username_candidate("Bob"), "bob");
}

#[test]
fn later_attempts_carry_a_numeric_suffix_within_32_characters() {
    assert_eq!(username_attempt("florian", 1), "florian");
    assert_eq!(username_attempt("florian", 2), "florian-2");
    assert_eq!(username_attempt(&"a".repeat(32), 12), format!("{}-12", "a".repeat(29)));
    let uc = ProvisionSsoUserUseCase::new();
    assert_eq!(uc.candidate("Ana@x", 3), "ana-3");
}

fn user(org: u128, super_admin: bool, org_admin: bool) -> User {
    User { id: 5, username: "u".into(), password_hash: "h".into(), is_super_admin: super_admin, is_organization_admin: org_admin, organization_id: org, created_at: 0, tokens_valid_after: 0, email: None }
}

#[test]
fn an_existing_account_is_reused_only_in_the_same_organization_without_privilege() {
    let uc = ProvisionSsoUserUseCase::new();
    assert_eq!(uc.reuse_existing(&user(1, false, false), 1), Ok(5));
    assert_eq!(uc.reuse_existing(&user(2, false, false), 1), Err(ApplicationError::InvalidCredentials));
    assert_eq!(uc.reuse_existing(&user(1, true, false), 1), Err(ApplicationError::InvalidCredentials));
    assert_eq!(uc.reuse_existing(&user(1, false, true), 1), Err(ApplicationError::InvalidCredentials));
}

#[test]
fn the_search_claims_the_first_free_candidate() {
    let uc = ProvisionSsoUserUseCase::new();
    assert_eq!(uc.next_username("jean@x", 1, true), UsernameAction::Try(2));
    assert_eq!(uc.next_username("jean@x", 2, true), UsernameAction::Try(3));
    assert_eq!(uc.next_username("jean@x", 3, false), UsernameAction::Claim("jean-3".to_string()));
    assert_eq!(uc.next_username("jean@x", 1, false), UsernameAction::Claim("jean".to_string()));
}

#[test]
fn a_provisioned_account_is_never_an_admin() {
    let uc = ProvisionSsoUserUseCase::new();
    let u = uc.provisioned_user(5, "jean".into(), "!hash".into(), 9, "jean@x", 77);
    assert_eq!(
        u,
        User {
            id: 5,
            username: "jean".into(),
            password_hash: "!hash".into(),
            is_super_admin: false,
            is_organization_admin: false,
            organization_id: 9,
            created_at: 77,
            tokens_valid_after: 77,
            email: Some("jean@x".into()),
        }
    );
}
