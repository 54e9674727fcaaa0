//! Personal API tokens: `hgr_`-prefixed random secrets of which only a SHA-256 hash is kept.

use vstd::prelude::*;

use crate::crypto::{b64url_nopad_encode, b64url_nopad_spec, hex_digit, hex_lower_spec, lemma_b64url_len, random_bytes, sha256_hex, sha256_hex_spec, sha256_spec};
use crate::error::ApplicationError;

verus! {

/// The prefix every API token starts with.
pub const API_TOKEN_PREFIX: &'static str = "hgr_";

pub open spec fn api_token_spec(random: Seq<u8>) -> Seq<char> {
    API_TOKEN_PREFIX@ + b64url_nopad_spec(random)
}

/// The token made of drawn bytes: `hgr_` followed by the bytes in unpadded URL-safe base64.
pub fn api_token_from_bytes(random: &[u8]) -> (r: String)
    ensures
        r@ == api_token_spec(random@),
        random@.len() == 32 ==> r@.len() == 47,
{
    let encoded = b64url_nopad_encode(random);
    proof {
        lemma_b64url_len(random@);
        reveal_strlit("hgr_");
    }
    let mut r = String::from_str(API_TOKEN_PREFIX);
    r.append(encoded.as_str());
    r
}

/// A fresh token: `hgr_` followed by 32 random bytes in unpadded URL-safe base64.
pub fn generate_api_token() -> (r: String)
    ensures
        exists|random: Seq<u8>| random.len() == 32 && r@ == api_token_spec(random),
        r@.len() == 47,
{
    let bytes = random_bytes(32);
    api_token_from_bytes(bytes.as_slice())
}

/// The stored form of a token: lowercase hex of its SHA-256 digest.
pub fn hash_api_token(plaintext: &str) -> (r: String)
    ensures
        r@ == sha256_hex_spec(plaintext@),
        r@.len() == 64,
{
    sha256_hex(plaintext)
}

/// A personal access token as stored: never the plaintext, only its hash.
#[derive(Debug, Clone, PartialEq, Eq)]
pub struct ApiToken {
    pub id: u128,
    pub user_id: u128,
    pub token_hash: String,
    pub label: String,
    pub created_at: i64,
    pub last_used_at: Option<i64>,
    pub revoked_at: Option<i64>,
}

impl ApiToken {
    /// A token works until it is revoked.
    pub fn is_active(&self) -> (r: bool)
        ensures
            r == self.revoked_at is None,
    {
        self.revoked_at.is_none()
    }
}

/// Creating a token for a user. The plaintext is returned once, here; only the record (holding
/// its hash) is stored.
pub struct CreateApiTokenUseCase {}

impl CreateApiTokenUseCase {
    pub fn new() -> Self {
        CreateApiTokenUseCase {  }
    }

    /// `id` is the fresh token id and `now` the creation instant.
    pub fn execute(&self, id: u128, user_id: u128, label: &str, now: i64) -> (r: (ApiToken, String))
        ensures
            r.0.id == id,
            r.0.user_id == user_id,
            r.0.label@ == label@,
            r.0.created_at == now,
            r.0.last_used_at is None,
            r.0.revoked_at is None,
            r.0.token_hash@ == sha256_hex_spec(r.1@),
            exists|random: Seq<u8>| random.len() == 32 && r.1@ == api_token_spec(random),
    {
        let plaintext = generate_api_token();
        let token = ApiToken {
            id,
            user_id,
            token_hash: hash_api_token(plaintext.as_str()),
            label: String::from_str(label),
            created_at: now,
            last_used_at: None,
            revoked_at: None,
        };
        (token, plaintext)
    }
}

/// Revoking one of one's own tokens.
pub struct RevokeApiTokenUseCase {}

impl RevokeApiTokenUseCase {
    pub fn new() -> Self {
        RevokeApiTokenUseCase {  }
    }

    /// `revoked` is whether the store revoked a token with this id owned by this user. Zero rows
    /// affected is reported as `ApiTokenNotFound`, never as success.
    pub fn execute(&self, revoked: bool) -> (r: Result<(), ApplicationError>)
        ensures
            revoked <==> r is Ok,
            r is Err ==> r == Err::<(), ApplicationError>(ApplicationError::ApiTokenNotFound),
    {
        if revoked {
            Ok(())
        } else {
            Err(ApplicationError::ApiTokenNotFound)
        }
    }
}

/// Lowercase hex only ever holds `0-9` and `a-f`.
pub proof fn lemma_hex_chars(bytes: Seq<u8>, i: int)
    requires
        0 <= i < hex_lower_spec(bytes).len(),
    ensures
        ('0' <= hex_lower_spec(bytes)[i] <= '9') || ('a' <= hex_lower_spec(bytes)[i] <= 'f'),
    decreases bytes.len(),
{
    if bytes.len() > 0 {
        let head = seq![hex_digit(bytes[0] as int / 16), hex_digit(bytes[0] as int % 16)];
        assert(hex_lower_spec(bytes) == head + hex_lower_spec(bytes.drop_first()));
        if i >= 2 {
            lemma_hex_chars(bytes.drop_first(), i - 2);
        }
    }
}

/// What is stored for a token is never the token itself: a token starts with `hgr_`, whose `g`
/// is no hexadecimal digit, while the stored hash is all hexadecimal digits.
pub proof fn lemma_stored_hash_is_not_the_token(random: Seq<u8>)
    ensures
        sha256_hex_spec(api_token_spec(random)) != api_token_spec(random),
{
    let token = api_token_spec(random);
    let stored = sha256_hex_spec(token);
    reveal_strlit("hgr_");
    assert(token[1] == 'g');
    if stored == token {
        crate::crypto::lemma_hex_len(sha256_spec(vstd::utf8::encode_utf8(token)));
        lemma_hex_chars(sha256_spec(vstd::utf8::encode_utf8(token)), 1);
    }
}

} // verus!
