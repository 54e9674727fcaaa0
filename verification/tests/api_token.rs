use hangar_application::api_token::{api_token_from_bytes, generate_api_token, hash_api_token, CreateApiTokenUseCase, RevokeApiTokenUseCase};
use hangar_application::error::ApplicationError;

#[test]
fn generated_tokens_have_the_hgr_prefix_and_are_reasonably_long() {
    let token = generate_api_token();
    assert!(token.starts_with("hgr_"));
    assert!(token.len() > 20);
    assert_eq!(token.len(), 47);
}

#[test]
fn hashing_is_deterministic() {
    assert_eq!(hash_api_token("same-input"), hash_api_token("same-input"));
    assert_ne!(hash_api_token("a"), hash_api_token("b"));
}

#[test]
fn hashing_is_lowercase_hex_sha256() {
    assert_eq!(hash_api_token("abc"), "ba7816bf8f01cfea414140de5dae2223b00361a396177a9cb410ff61f20015ad");
}

#[test]
fn creating_a_token_stores_only_its_hash() {
    let (token, plaintext) = CreateApiTokenUseCase::new().execute(7, 42, "my laptop", 1000);
    assert_eq!(token.id, 7);
    assert_eq!(token.user_id, 42);
    assert_eq!(token.label, "my laptop");
    assert_ne!(token.token_hash, plaintext);
    assert_eq!(token.token_hash, hash_api_token(&plaintext));
    assert!(token.revoked_at.is_none());
}

#[test]
fn revoking_someone_elses_or_an_unknown_token_is_rejected() {
    assert_eq!(RevokeApiTokenUseCase::new().execute(false), Err(ApplicationError::ApiTokenNotFound));
    assert_eq!(RevokeApiTokenUseCase::new().execute(true), Ok(()));
}

#[test]
fn a_token_is_the_prefix_and_the_url_safe_base64_of_its_bytes() {
    assert_eq!(api_token_from_bytes(&[0u8; 32]), format!("hgr_{}", "A".repeat(43)));
    assert_eq!(api_token_from_bytes(&[0xfb, 0xff]), "hgr_-_8");
}
