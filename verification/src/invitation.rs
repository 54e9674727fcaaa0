//! Inviting users: the activation link they are mailed, the token behind it, and when an
//! invitation may be used or re-sent.

use vstd::prelude::*;

use crate::crypto::{hex_encode, hex_lower_spec, lemma_hex_len, random_bytes, sha256_hex, sha256_hex_spec};
use crate::email_templates::{account_created, account_created_body, account_created_text, shell_spec, EmailContent, CREATED_PREHEADER, CREATED_SUBJECT};
use crate::error::{ApplicationError, DomainError};
use crate::ids::{uuid_text, uuid_text_spec};
use crate::model::{Organization, User, UserInvitation};
use crate::text::{all_whitespace, contains_char, has_char, is_all_whitespace, seq_starts_with, str_starts_with};

verus! {

/// How long an invitation link stays valid.
pub const INVITATION_TTL_HOURS: i64 = 24;

/// The same validity in seconds.
pub const INVITATION_TTL_SECONDS: i64 = 86400;

/// `https://<slug>.<base domain>`, or the bare base domain for the public organization; plain
/// `http` when the base domain is `localhost`-something.
pub open spec fn origin_spec(base_domain: Seq<char>, organization_slug: Seq<char>, is_public: bool) -> Seq<char> {
    let scheme = if seq_starts_with(base_domain, "localhost"@) {
        "http"@
    } else {
        "https"@
    };
    let host = if is_public {
        base_domain
    } else {
        organization_slug + "."@ + base_domain
    };
    scheme + "://"@ + host
}

/// The origin an organization is served from, under `hangar_base_domain` (given without a
/// trailing slash).
pub fn organization_origin(hangar_base_domain: &str, organization: &Organization) -> (r: String)
    ensures
        r@ == origin_spec(hangar_base_domain@, organization.slug@, organization.is_public),
{
    let mut r = if str_starts_with(hangar_base_domain, "localhost") {
        String::from_str("http")
    } else {
        String::from_str("https")
    };
    r.append("://");
    if !organization.is_public {
        r.append(organization.slug.as_str());
        r.append(".");
    }
    r.append(hangar_base_domain);
    r
}

pub open spec fn organization_not_found_message(organization_id: u128) -> Seq<char> {
    "organization "@ + uuid_text_spec(organization_id) + " not found"@
}

/// The organization looked up by id, which must exist: its absence is an infrastructure
/// failure, not a client error.
pub fn require_organization(organization: Option<Organization>, organization_id: u128) -> (r: Result<
    Organization,
    ApplicationError,
>)
    ensures
        match organization {
            Some(o) => r == Ok::<Organization, ApplicationError>(o),
            None => r matches Err(ApplicationError::Domain(DomainError::Infrastructure(m))) && m@
                == organization_not_found_message(organization_id),
        },
{
    match organization {
        Some(o) => Ok(o),
        None => {
            let mut m = String::from_str("organization ");
            let id = uuid_text(organization_id);
            m.append(id.as_str());
            m.append(" not found");
            Err(ApplicationError::Domain(DomainError::Infrastructure(m)))
        },
    }
}

/// The password a restored or invited account is created with before it is activated: 32
/// random bytes in hex, which nobody learns (only its hash is stored).
pub fn unusable_password() -> (r: String)
    ensures
        exists|bytes: Seq<u8>| bytes.len() == 32 && r@ == hex_lower_spec(bytes),
{
    let bytes = random_bytes(32);
    hex_encode(bytes.as_slice())
}

pub open spec fn activation_url_spec(origin: Seq<char>, token: Seq<char>) -> Seq<char> {
    origin + "/activate?token="@ + token
}

/// The link an invited user follows to activate the account.
pub fn activation_url(origin: &str, token: &str) -> (r: String)
    ensures
        r@ == activation_url_spec(origin@, token@),
{
    let mut r = String::from_str(origin);
    r.append("/activate?token=");
    r.append(token);
    r
}

/// A fresh invitation token: 32 random bytes in lowercase hex.
pub fn generate_invitation_token() -> (r: String)
    ensures
        exists|bytes: Seq<u8>| bytes.len() == 32 && r@ == hex_lower_spec(bytes),
        r@.len() == 64,
{
    let bytes = random_bytes(32);
    proof {
        lemma_hex_len(bytes@);
    }
    hex_encode(bytes.as_slice())
}

/// The stored form of an invitation token.
pub fn hash_invitation_token(plaintext: &str) -> (r: String)
    ensures
        r@ == sha256_hex_spec(plaintext@),
{
    sha256_hex(plaintext)
}

/// An address is accepted when it is not blank and contains an `@`.
pub open spec fn email_acceptable(email: Seq<char>) -> bool {
    !all_whitespace(email) && has_char(email, '@')
}

pub fn validate_email(email: &str) -> (r: Result<(), ApplicationError>)
    ensures
        email_acceptable(email@) <==> r is Ok,
        r matches Err(e) ==> (e matches ApplicationError::InvalidEmail(m) && m@ == email@),
{
    if is_all_whitespace(email) || !contains_char(email, '@') {
        return Err(ApplicationError::InvalidEmail(String::from_str(email)));
    }
    Ok(())
}

/// When an invitation issued at `now` expires.
pub fn invitation_expires_at(now: i64) -> (r: i64)
    requires
        now <= i64::MAX - INVITATION_TTL_SECONDS,
    ensures
        r == now + INVITATION_TTL_SECONDS,
{
    now + INVITATION_TTL_SECONDS
}

/// The invitation stored for `user_id` when `token` is issued at `now`: only the token's hash,
/// and an expiry one lifetime later.
pub fn invitation_for(user_id: u128, token: &str, now: i64) -> (r: UserInvitation)
    requires
        now <= i64::MAX - INVITATION_TTL_SECONDS,
    ensures
        r.user_id == user_id,
        r.token_hash@ == sha256_hex_spec(token@),
        r.expires_at == now + INVITATION_TTL_SECONDS,
{
    UserInvitation { user_id, token_hash: hash_invitation_token(token), expires_at: invitation_expires_at(now) }
}

/// The activation email for `username`, pointing at their organization's origin.
pub open spec fn activation_email_ok(
    base_domain: Seq<char>,
    organization: Organization,
    username: Seq<char>,
    token: Seq<char>,
    r: EmailContent,
) -> bool {
    let url = activation_url_spec(origin_spec(base_domain, organization.slug@, organization.is_public), token);
    &&& r.subject@ == CREATED_SUBJECT@
    &&& r.text@ == account_created_text(username, url)
    &&& r.html@ == shell_spec(CREATED_PREHEADER@, account_created_body(username, url))
}

pub fn activation_email(hangar_base_domain: &str, organization: &Organization, username: &str, token: &str) -> (r: EmailContent)
    ensures
        activation_email_ok(hangar_base_domain@, *organization, username@, token@, r),
{
    let origin = organization_origin(hangar_base_domain, organization);
    let url = activation_url(origin.as_str(), token);
    account_created(username, url.as_str())
}

/// Creating an invited account. The account (with an unusable password) and its invitation are
/// stored by the caller; this decides whether the request is acceptable and what is mailed.
pub struct InviteUserUseCase {
    /// Without a trailing slash.
    pub hangar_base_domain: String,
}

impl InviteUserUseCase {
    pub fn new(hangar_base_domain: String) -> (r: Self)
        ensures
            r.hangar_base_domain == hangar_base_domain,
    {
        InviteUserUseCase { hangar_base_domain }
    }

    /// `username` is the outcome of the domain's username validation; `username_taken` whether
    /// an account already holds it. Checked in that order: username, email, availability.
    pub fn execute(&self, username: Result<String, DomainError>, email: &str, username_taken: bool) -> (r: Result<String, ApplicationError>)
        ensures
            match username {
                Err(e) => r == Err::<String, ApplicationError>(ApplicationError::Domain(e)),
                Ok(name) => if !email_acceptable(email@) {
                    r matches Err(ApplicationError::InvalidEmail(m)) && m@ == email@
                } else if username_taken {
                    r == Err::<String, ApplicationError>(ApplicationError::UsernameTaken)
                } else {
                    r == Ok::<String, ApplicationError>(name)
                },
            },
    {
        let name = match username {
            Err(e) => return Err(ApplicationError::Domain(e)),
            Ok(name) => name,
        };
        validate_email(email)?;
        if username_taken {
            return Err(ApplicationError::UsernameTaken);
        }
        Ok(name)
    }

    /// The activation email sent to the new account.
    pub fn activation_email(&self, organization: &Organization, username: &str, token: &str) -> (r: EmailContent)
        ensures
            activation_email_ok(self.hangar_base_domain@, *organization, username@, token@, r),
    {
        activation_email(self.hangar_base_domain.as_str(), organization, username, token)
    }
}

/// Re-sending an invitation with a fresh token.
pub struct ResendInvitationUseCase {
    pub hangar_base_domain: String,
}

impl ResendInvitationUseCase {
    pub fn new(hangar_base_domain: String) -> (r: Self)
        ensures
            r.hangar_base_domain == hangar_base_domain,
    {
        ResendInvitationUseCase { hangar_base_domain }
    }

    /// The address to re-send to. An unknown user, an already-activated account (no invitation
    /// left) and an account without an address all answer `InvitationNotFound`.
    pub fn execute(&self, user: Option<User>, has_pending_invitation: bool) -> (r: Result<String, ApplicationError>)
        ensures
            match user {
                Some(u) if has_pending_invitation && u.email is Some => r == Ok::<String, ApplicationError>(
                    u.email->0,
                ),
                _ => r == Err::<String, ApplicationError>(ApplicationError::InvitationNotFound),
            },
    {
        match user {
            None => Err(ApplicationError::InvitationNotFound),
            Some(u) => {
                if !has_pending_invitation {
                    return Err(ApplicationError::InvitationNotFound);
                }
                match u.email {
                    Some(email) => Ok(email),
                    None => Err(ApplicationError::InvitationNotFound),
                }
            },
        }
    }

    /// The email re-sent, pointing at the user's own organization.
    pub fn activation_email(&self, organization: &Organization, username: &str, token: &str) -> (r: EmailContent)
        ensures
            activation_email_ok(self.hangar_base_domain@, *organization, username@, token@, r),
    {
        activation_email(self.hangar_base_domain.as_str(), organization, username, token)
    }
}

/// Activating an invited account with its token.
pub struct ActivateAccountUseCase {}

impl ActivateAccountUseCase {
    pub fn new() -> Self {
        ActivateAccountUseCase {  }
    }

    /// `invitation` is the one whose token hash matches the presented token. Returns the account
    /// to set the password of; expiry is inclusive of the expiry instant itself.
    pub fn execute(&self, invitation: Option<UserInvitation>, now: i64) -> (r: Result<u128, ApplicationError>)
        ensures
            match invitation {
                None => r == Err::<u128, ApplicationError>(ApplicationError::InvitationNotFound),
                Some(inv) => if inv.expires_at < now {
                    r == Err::<u128, ApplicationError>(ApplicationError::InvitationExpired)
                } else {
                    r == Ok::<u128, ApplicationError>(inv.user_id)
                },
            },
    {
        match invitation {
            None => Err(ApplicationError::InvitationNotFound),
            Some(inv) => {
                if inv.expires_at < now {
                    Err(ApplicationError::InvitationExpired)
                } else {
                    Ok(inv.user_id)
                }
            },
        }
    }
}


} // verus!
