//! The records the use cases read: users, organizations and invitations, as plain values.
//! Identifiers are the 128-bit values of their UUIDs; instants are Unix seconds.

use vstd::prelude::*;

verus! {

/// An account. A pending (invited, not yet activated) account has an unusable password hash.
#[derive(Debug, Clone, PartialEq, Eq)]
pub struct User {
    pub id: u128,
    pub username: String,
    pub password_hash: String,
    pub is_super_admin: bool,
    pub is_organization_admin: bool,
    pub organization_id: u128,
    pub created_at: i64,
    /// Sessions and tokens issued before this instant are no longer accepted.
    pub tokens_valid_after: i64,
    pub email: Option<String>,
}

/// A tenant. The public organization is served from the bare base domain, every other one from
/// its own subdomain.
#[derive(Debug, Clone, PartialEq, Eq)]
pub struct Organization {
    pub id: u128,
    pub slug: String,
    pub is_public: bool,
}

/// A pending invitation: only the hash of its token is stored.
#[derive(Debug, Clone, PartialEq, Eq)]
pub struct UserInvitation {
    pub user_id: u128,
    pub token_hash: String,
    pub expires_at: i64,
}

/// A user's role on one repository. Each role includes the ones before it.
#[derive(Debug, Clone, Copy, PartialEq, Eq, Structural)]
pub enum Role {
    Read,
    Write,
    Admin,
}

impl Role {
    pub open spec fn rank(self) -> int {
        match self {
            Role::Read => 0,
            Role::Write => 1,
            Role::Admin => 2,
        }
    }

    /// Whether holding this role is enough for an operation that needs `required`.
    pub fn satisfies(self, required: Role) -> (r: bool)
        ensures
            r == (self.rank() >= required.rank()),
    {
        match (self, required) {
            (Role::Admin, _) => true,
            (Role::Write, Role::Admin) => false,
            (Role::Write, _) => true,
            (Role::Read, Role::Read) => true,
            (Role::Read, _) => false,
        }
    }
}

/// Which kind of packages a repository holds.
#[derive(Debug, Clone, Copy, PartialEq, Eq, Structural)]
pub enum RepositoryFormat {
    Npm,
    Docker,
}

/// How a repository gets its content: pushed to it, mirrored from a remote, or gathered from
/// member repositories.
#[derive(Debug, Clone, Copy, PartialEq, Eq, Structural)]
pub enum RepositoryType {
    Hosted,
    Proxy,
    Group,
}

/// A package repository as the queries see it. A group lists its members in resolution order.
#[derive(Debug, Clone, PartialEq, Eq)]
pub struct PackageRepositorySummary {
    pub id: u128,
    pub organization_id: u128,
    pub name: String,
    pub format: RepositoryFormat,
    pub repo_type: RepositoryType,
    pub remote_url: Option<String>,
    pub remote_username: Option<String>,
    pub remote_password: Option<String>,
    pub group_members: Vec<u128>,
    /// `None` means unlimited.
    pub quota_bytes: Option<i64>,
    pub retention_keep_last_n: Option<i32>,
}

} // verus!
