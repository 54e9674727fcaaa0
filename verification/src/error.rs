//! The error every use case reports, and the domain-level errors it wraps.

use vstd::prelude::*;

use crate::sso::decimal_spec;
use crate::text::string_push;

verus! {

/// Errors raised below the application layer: by the domain model's own checks, or by the
/// infrastructure behind it.
#[derive(Debug, Clone, PartialEq, Eq)]
pub enum DomainError {
    /// A backing store or service failed; the message says how.
    Infrastructure(String),
    /// A value did not pass the domain's validation (a username, a password, a name, ...).
    Validation(String),
    /// The grantee of a permission belongs to another organization than the repository.
    GranteeOrganizationMismatch(u128),
    /// A group repository cannot contain itself.
    SelfGroupMembership,
    /// The repository to add to a group does not exist.
    UnknownGroupMember(u128),
    /// A group cannot gain a member from another organization.
    GroupMemberOrganizationMismatch(u128),
    /// A group cannot mix package formats.
    GroupMemberFormatMismatch(u128),
    /// A chunk was sent for another offset than the staged bytes end at.
    ChunkOffsetMismatch { expected: i64, got: i64 },
}

/// Every failure a use case reports to its caller.
#[derive(Debug, Clone, PartialEq, Eq)]
pub enum ApplicationError {
    Domain(DomainError),
    EventStore(String),
    Storage(String),
    UsernameTaken,
    InvalidCredentials,
    RepositoryNameTaken,
    LastSuperAdmin,
    PackageVersionExists,
    NpmPackageNotFound,
    NpmVersionNotFound,
    InvalidNpmPayload(String),
    DockerBlobAlreadyExists,
    DockerBlobNotFound,
    DockerManifestNotFound,
    DockerDigestMismatch { expected: String, computed: String },
    InvalidDockerPayload(String),
    DockerUploadSessionNotFound,
    DockerChunkOffsetMismatch { expected: i64, got: i64 },
    InvalidSystemSettings(String),
    StorageQuotaExceeded,
    InvalidSmtpSettings(String),
    InvalidEmail(String),
    InvitationNotFound,
    InvitationExpired,
    MfaAlreadyEnabled,
    MfaNotEnrolled,
    InvalidMfaCode,
    PasskeysUnavailable,
    InstanceNotEmpty,
    InvalidBrandingAsset(String),
    OrganizationSlugTaken,
    ActingAdminNotFound,
    /// The token does not exist or belongs to another user; the two are deliberately
    /// indistinguishable to the caller.
    ApiTokenNotFound,
}

/// How a domain failure reads: the message it carries, or a sentence naming the repository or
/// grantee concerned.
pub open spec fn domain_message(e: DomainError) -> Seq<char> {
    match e {
        DomainError::Infrastructure(m) => m@,
        DomainError::Validation(m) => m@,
        DomainError::GranteeOrganizationMismatch(_) => "the grantee belongs to another organization than the repository"@,
        DomainError::SelfGroupMembership => "a group repository cannot contain itself"@,
        DomainError::UnknownGroupMember(_) => "the group member repository does not exist"@,
        DomainError::GroupMemberOrganizationMismatch(_) => "the group member belongs to another organization"@,
        DomainError::GroupMemberFormatMismatch(_) => "the group member holds another package format"@,
        DomainError::ChunkOffsetMismatch { .. } => "chunk offset mismatch"@,
    }
}

impl DomainError {
    pub fn message(&self) -> (r: String)
        ensures
            r@ == domain_message(*self),
    {
        match self {
            DomainError::Infrastructure(m) => m.clone(),
            DomainError::Validation(m) => m.clone(),
            DomainError::GranteeOrganizationMismatch(_) => String::from_str(
                "the grantee belongs to another organization than the repository",
            ),
            DomainError::SelfGroupMembership => String::from_str("a group repository cannot contain itself"),
            DomainError::UnknownGroupMember(_) => String::from_str("the group member repository does not exist"),
            DomainError::GroupMemberOrganizationMismatch(_) => String::from_str("the group member belongs to another organization"),
            DomainError::GroupMemberFormatMismatch(_) => String::from_str("the group member holds another package format"),
            DomainError::ChunkOffsetMismatch { .. } => String::from_str("chunk offset mismatch"),
        }
    }
}

/// How an application error reads, as reported to users and written into import reports.
pub open spec fn error_message(e: ApplicationError) -> Seq<char> {
    match e {
        ApplicationError::Domain(d) => domain_message(d),
        ApplicationError::EventStore(m) => m@,
        ApplicationError::Storage(m) => m@,
        ApplicationError::UsernameTaken => "username already taken"@,
        ApplicationError::InvalidCredentials => "invalid credentials"@,
        ApplicationError::RepositoryNameTaken => "repository name already taken"@,
        ApplicationError::LastSuperAdmin => "cannot delete the last super-administrator"@,
        ApplicationError::PackageVersionExists => "this package version already exists and cannot be republished"@,
        ApplicationError::NpmPackageNotFound => "package not found"@,
        ApplicationError::NpmVersionNotFound => "version not found"@,
        ApplicationError::InvalidNpmPayload(m) => "invalid tarball or manifest: "@ + m@,
        ApplicationError::DockerBlobAlreadyExists => "blob with this digest already exists"@,
        ApplicationError::DockerBlobNotFound => "blob not found"@,
        ApplicationError::DockerManifestNotFound => "manifest not found"@,
        ApplicationError::DockerDigestMismatch { expected, computed } => "digest mismatch: expected "@ + expected@
            + ", computed "@ + computed@,
        ApplicationError::InvalidDockerPayload(m) => "invalid manifest or upload: "@ + m@,
        ApplicationError::DockerUploadSessionNotFound => "upload session not found or expired"@,
        ApplicationError::DockerChunkOffsetMismatch { expected, got } => "chunk offset mismatch: expected to start at "@
            + signed_decimal_spec(expected as int) + ", got "@ + signed_decimal_spec(got as int),
        ApplicationError::InvalidSystemSettings(m) => "invalid system settings: "@ + m@,
        ApplicationError::StorageQuotaExceeded => "this write would exceed the repository's storage quota"@,
        ApplicationError::InvalidSmtpSettings(m) => "invalid SMTP settings: "@ + m@,
        ApplicationError::InvalidEmail(m) => "invalid email address: "@ + m@,
        ApplicationError::InvitationNotFound => "invitation not found or already used"@,
        ApplicationError::InvitationExpired => "this invitation has expired"@,
        ApplicationError::MfaAlreadyEnabled => "two-factor authentication is already enabled"@,
        ApplicationError::MfaNotEnrolled => "two-factor authentication is not enabled"@,
        ApplicationError::InvalidMfaCode => "invalid or already-used authentication code"@,
        ApplicationError::PasskeysUnavailable => PASSKEYS_UNAVAILABLE@,
        ApplicationError::InstanceNotEmpty => INSTANCE_NOT_EMPTY@,
        ApplicationError::InvalidBrandingAsset(m) => "invalid branding asset: "@ + m@,
        ApplicationError::OrganizationSlugTaken => "organization slug already taken"@,
        ApplicationError::ActingAdminNotFound => ACTING_ADMIN_NOT_FOUND@,
        ApplicationError::ApiTokenNotFound => "api token not found"@,
    }
}

pub const PASSKEYS_UNAVAILABLE: &'static str = "passkeys are not available: the server's PUBLIC_URL is not configured with a valid domain";

pub const INSTANCE_NOT_EMPTY: &'static str = "this instance is not empty — import only works on a freshly-provisioned instance with no repositories and no users other than the one running the import";

pub const ACTING_ADMIN_NOT_FOUND: &'static str = "the acting admin's own user record could not be found — its token was valid enough to identify a user, but that user no longer exists";

/// `n` in decimal, as `Display` writes an integer: a `-` before a negative one.
pub open spec fn signed_decimal_spec(n: int) -> Seq<char> {
    if n < 0 {
        "-"@ + decimal_spec((-n) as nat)
    } else {
        decimal_spec(n as nat)
    }
}

fn unsigned_decimal(n: u64) -> (r: String)
    ensures
        r@ == decimal_spec(n as nat),
    decreases n,
{
    if n < 10 {
        let mut r = String::new();
        string_push(&mut r, digit_char(n));
        assert(r@ =~= decimal_spec(n as nat));
        r
    } else {
        let mut r = unsigned_decimal(n / 10);
        string_push(&mut r, digit_char(n % 10));
        r
    }
}

fn digit_char(d: u64) -> (c: char)
    requires
        d < 10,
    ensures
        c == (('0' as int) + d) as char,
{
    let b: u8 = (48 + d) as u8;
    b as char
}

pub fn signed_decimal(n: i64) -> (r: String)
    ensures
        r@ == signed_decimal_spec(n as int),
{
    if n < 0 {
        let magnitude: u64 = if n == i64::MIN {
            0x8000_0000_0000_0000
        } else {
            (-n) as u64
        };
        let digits = unsigned_decimal(magnitude);
        let mut r = String::from_str("-");
        r.append(digits.as_str());
        r
    } else {
        unsigned_decimal(n as u64)
    }
}

fn prefixed(prefix: &str, detail: &String) -> (r: String)
    ensures
        r@ == prefix@ + detail@,
{
    let mut r = String::from_str(prefix);
    r.append(detail.as_str());
    r
}

impl ApplicationError {
    pub fn message(&self) -> (r: String)
        ensures
            r@ == error_message(*self),
    {
        match self {
            ApplicationError::Domain(d) => d.message(),
            ApplicationError::EventStore(m) => m.clone(),
            ApplicationError::Storage(m) => m.clone(),
            ApplicationError::UsernameTaken => String::from_str("username already taken"),
            ApplicationError::InvalidCredentials => String::from_str("invalid credentials"),
            ApplicationError::RepositoryNameTaken => String::from_str("repository name already taken"),
            ApplicationError::LastSuperAdmin => String::from_str("cannot delete the last super-administrator"),
            ApplicationError::PackageVersionExists => String::from_str("this package version already exists and cannot be republished"),
            ApplicationError::NpmPackageNotFound => String::from_str("package not found"),
            ApplicationError::NpmVersionNotFound => String::from_str("version not found"),
            ApplicationError::InvalidNpmPayload(m) => prefixed("invalid tarball or manifest: ", m),
            ApplicationError::DockerBlobAlreadyExists => String::from_str("blob with this digest already exists"),
            ApplicationError::DockerBlobNotFound => String::from_str("blob not found"),
            ApplicationError::DockerManifestNotFound => String::from_str("manifest not found"),
            ApplicationError::DockerDigestMismatch { expected, computed } => {
                let mut r = prefixed("digest mismatch: expected ", expected);
                r.append(", computed ");
                r.append(computed.as_str());
                r
            },
            ApplicationError::InvalidDockerPayload(m) => prefixed("invalid manifest or upload: ", m),
            ApplicationError::DockerUploadSessionNotFound => String::from_str("upload session not found or expired"),
            ApplicationError::DockerChunkOffsetMismatch { expected, got } => {
                let mut r = String::from_str("chunk offset mismatch: expected to start at ");
                let e = signed_decimal(*expected);
                r.append(e.as_str());
                r.append(", got ");
                let g = signed_decimal(*got);
                r.append(g.as_str());
                r
            },
            ApplicationError::InvalidSystemSettings(m) => prefixed("invalid system settings: ", m),
            ApplicationError::StorageQuotaExceeded => String::from_str("this write would exceed the repository's storage quota"),
            ApplicationError::InvalidSmtpSettings(m) => prefixed("invalid SMTP settings: ", m),
            ApplicationError::InvalidEmail(m) => prefixed("invalid email address: ", m),
            ApplicationError::InvitationNotFound => String::from_str("invitation not found or already used"),
            ApplicationError::InvitationExpired => String::from_str("this invitation has expired"),
            ApplicationError::MfaAlreadyEnabled => String::from_str("two-factor authentication is already enabled"),
            ApplicationError::MfaNotEnrolled => String::from_str("two-factor authentication is not enabled"),
            ApplicationError::InvalidMfaCode => String::from_str("invalid or already-used authentication code"),
            ApplicationError::PasskeysUnavailable => String::from_str(PASSKEYS_UNAVAILABLE),
            ApplicationError::InstanceNotEmpty => String::from_str(INSTANCE_NOT_EMPTY),
            ApplicationError::InvalidBrandingAsset(m) => prefixed("invalid branding asset: ", m),
            ApplicationError::OrganizationSlugTaken => String::from_str("organization slug already taken"),
            ApplicationError::ActingAdminNotFound => String::from_str(ACTING_ADMIN_NOT_FOUND),
            ApplicationError::ApiTokenNotFound => String::from_str("api token not found"),
        }
    }
}

} // verus!
