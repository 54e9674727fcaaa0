use hangar_application::error::{ApplicationError, DomainError};
use hangar_application::invitation::{
    activation_url, generate_invitation_token, invitation_for, hash_invitation_token, invitation_expires_at, organization_origin, validate_email,
    ActivateAccountUseCase, InviteUserUseCase, ResendInvitationUseCase,
};
use hangar_application::model::{Organization, User, UserInvitation};

fn org(slug: &str, is_public: bool) -> Organization {
    Organization { id: 7, slug: slug.into(), is_public }
}

#[test]
fn an_organization_is_served_from_its_own_subdomain() {
    assert_eq!(organization_origin("hangar.example", &org("acme", false)), "https://acme.hangar.example");
    assert_eq!(organization_origin("hangar.example", &org("public", true)), "https://hangar.example");
    assert_eq!(organization_origin("localhost:8080", &org("acme", false)), "http://acme.localhost:8080");
}

#[test]
fn the_activation_link_carries_the_token() {
    assert_eq!(activation_url("https://acme.hangar.example", "abc"), "https://acme.hangar.example/activate?token=abc");
}

#[test]
fn invitation_tokens_are_64_hex_digits_and_stored_hashed() {
    let token = generate_invitation_token();
    assert_eq!(token.len(), 64);
    assert!(token.chars().all(|c| c.is_ascii_hexdigit()));
    let stored = hash_invitation_token(&token);
    assert_ne!(stored, token);
    assert_eq!(stored, hash_invitation_token(&token));
}

#[test]
fn an_email_needs_an_at_sign_and_something_besides_whitespace() {
    assert_eq!(validate_email("a@b"), Ok(()));
    assert_eq!(validate_email("   "), Err(ApplicationError::InvalidEmail("   ".into())));
    assert_eq!(validate_email("ab"), Err(ApplicationError::InvalidEmail("ab".into())));
}

#[test]
fn an_invitation_expires_a_day_after_it_is_issued() {
    assert_eq!(invitation_expires_at(1_000), 1_000 + 86_400);
}

#[test]
fn inviting_refuses_a_taken_username_after_checking_the_email() {
    let use_case = InviteUserUseCase::new("hangar.example".into());
    assert_eq!(use_case.execute(Ok("bob".into()), "bob@x", true), Err(ApplicationError::UsernameTaken));
    assert_eq!(use_case.execute(Ok("bob".into()), "nope", true), Err(ApplicationError::InvalidEmail("nope".into())));
    assert_eq!(use_case.execute(Ok("bob".into()), "bob@x", false), Ok("bob".to_string()));
    assert_eq!(
        use_case.execute(Err(DomainError::Validation("bad".into())), "bob@x", false),
        Err(ApplicationError::Domain(DomainError::Validation("bad".into())))
    );
}

#[test]
fn resending_needs_a_pending_invitation_and_an_address() {
    let use_case = ResendInvitationUseCase::new("hangar.example".into());
    let user = User {
        id: 1,
        username: "bob".into(),
        password_hash: "!".into(),
        is_super_admin: false,
        is_organization_admin: false,
        organization_id: 7,
        created_at: 0,
        tokens_valid_after: 0,
        email: Some("bob@x".into()),
    };
    assert_eq!(use_case.execute(Some(user.clone()), true), Ok("bob@x".to_string()));
    assert_eq!(use_case.execute(Some(user.clone()), false), Err(ApplicationError::InvitationNotFound));
    assert_eq!(use_case.execute(None, true), Err(ApplicationError::InvitationNotFound));
    let without_email = User { email: None, ..user };
    assert_eq!(use_case.execute(Some(without_email), true), Err(ApplicationError::InvitationNotFound));
}

#[test]
fn the_activation_email_links_to_the_organization() {
    let use_case = ResendInvitationUseCase::new("hangar.example".into());
    let content = use_case.activation_email(&org("acme", false), "bob", "tok");
    assert!(content.text.contains("https://acme.hangar.example/activate?token=tok"));
    assert!(content.html.contains("https://acme.hangar.example/activate?token=tok"));
}

#[test]
fn an_expired_invitation_cannot_activate_an_account() {
    let use_case = ActivateAccountUseCase::new();
    let invitation = UserInvitation { user_id: 3, token_hash: "h".into(), expires_at: 100 };
    assert_eq!(use_case.execute(Some(invitation.clone()), 100), Ok(3));
    assert_eq!(use_case.execute(Some(invitation), 101), Err(ApplicationError::InvitationExpired));
    assert_eq!(use_case.execute(None, 0), Err(ApplicationError::InvitationNotFound));
}

#[test]
fn a_missing_organization_is_an_infrastructure_failure() {
    assert_eq!(
        hangar_application::invitation::require_organization(None, 1),
        Err(ApplicationError::Domain(DomainError::Infrastructure("organization 00000000-0000-0000-0000-000000000001 not found".into())))
    );
    assert_eq!(hangar_application::invitation::require_organization(Some(org("a", false)), 7), Ok(org("a", false)));
    assert_eq!(hangar_application::invitation::unusable_password().len(), 64);
}

#[test]
fn an_invitation_keeps_only_the_token_hash_and_expires_a_day_later() {
    let inv = invitation_for(7, "tok", 1_000);
    assert_eq!(
        inv,
        UserInvitation {
            user_id: 7,
            token_hash: "1a7674eb4ee78df7e1ac439a93c3fa8e3c945784d4dec9fd8e3011738b2f1d62".into(),
            expires_at: 87_400,
        }
    );
}
