//! Instance administration: system settings, health, usage, the admin's token list, and the
//! export and import of an instance's configuration.

use vstd::prelude::*;

use crate::api_token::ApiToken;
use crate::error::ApplicationError;
use crate::ids::{uuid_text, uuid_text_spec};
use crate::model::{PackageRepositorySummary, RepositoryFormat, RepositoryType, Role, User};

use std::collections::{HashMap, HashSet};

verus! {

/// Per-organization security settings.
#[derive(Debug, Clone, Copy, PartialEq, Eq, Structural)]
pub struct SystemSettings {
    pub max_login_attempts: i64,
    pub login_attempt_window_seconds: i64,
    pub session_ttl_hours: i64,
    pub registration_enabled: bool,
}

pub const MAX_LOGIN_ATTEMPTS_RANGE_MESSAGE: &'static str = "max_login_attempts must be between 1 and 1000";

pub const LOGIN_WINDOW_RANGE_MESSAGE: &'static str = "login_attempt_window_seconds must be between 1 and 86400 (24h)";

pub const SESSION_TTL_RANGE_MESSAGE: &'static str = "session_ttl_hours must be between 1 and 720 (30 days)";

/// The first range a setting falls outside of, by its message; `None` when all are in range.
pub open spec fn settings_violation(s: SystemSettings) -> Option<Seq<char>> {
    if !(1 <= s.max_login_attempts <= 1000) {
        Some(MAX_LOGIN_ATTEMPTS_RANGE_MESSAGE@)
    } else if !(1 <= s.login_attempt_window_seconds <= 86400) {
        Some(LOGIN_WINDOW_RANGE_MESSAGE@)
    } else if !(1 <= s.session_ttl_hours <= 720) {
        Some(SESSION_TTL_RANGE_MESSAGE@)
    } else {
        None
    }
}

/// Updating an organization's settings. The ranges are checked only here: whoever consumes the
/// settings afterwards trusts them.
pub struct UpdateSystemSettingsUseCase {}

impl UpdateSystemSettingsUseCase {
    pub fn new() -> (r: Self) {
        UpdateSystemSettingsUseCase {  }
    }

    /// Accepts the settings for storage, or says which range is broken first.
    pub fn execute(&self, settings: &SystemSettings) -> (r: Result<(), ApplicationError>)
        ensures
            match settings_violation(*settings) {
                None => r is Ok,
                Some(m) => r matches Err(ApplicationError::InvalidSystemSettings(msg)) && msg@ == m,
            },
    {
        if !(1 <= settings.max_login_attempts && settings.max_login_attempts <= 1000) {
            return Err(ApplicationError::InvalidSystemSettings(String::from_str(MAX_LOGIN_ATTEMPTS_RANGE_MESSAGE)));
        }
        if !(1 <= settings.login_attempt_window_seconds && settings.login_attempt_window_seconds <= 86400) {
            return Err(ApplicationError::InvalidSystemSettings(String::from_str(LOGIN_WINDOW_RANGE_MESSAGE)));
        }
        if !(1 <= settings.session_ttl_hours && settings.session_ttl_hours <= 720) {
            return Err(ApplicationError::InvalidSystemSettings(String::from_str(SESSION_TTL_RANGE_MESSAGE)));
        }
        Ok(())
    }
}

/// How one backing component is doing.
#[derive(Debug, Clone, PartialEq, Eq)]
pub enum ComponentHealth {
    Up,
    Down(String),
}

pub const STORAGE_UNREACHABLE: &'static str = "storage backend unreachable";

/// The storage backend's health and disk space.
#[derive(Debug, Clone, PartialEq, Eq)]
pub struct StorageHealth {
    pub status: ComponentHealth,
    pub used_bytes: u64,
    pub free_bytes: u64,
    pub total_bytes: u64,
}

pub struct GetHealthStatusUseCase {}

impl GetHealthStatusUseCase {
    /// The storage part of the health report. Disk space is informational: when it could not be
    /// read (`space` is `None`) it reads as zeroes, and the status still only says whether the
    /// backend answered. `space` is `(total_bytes, free_bytes)`.
    pub fn storage_health(storage_up: bool, space: Option<(u64, u64)>) -> (r: StorageHealth)
        ensures
            storage_up ==> r.status == ComponentHealth::Up,
            !storage_up ==> (r.status matches ComponentHealth::Down(m) && m@ == STORAGE_UNREACHABLE@),
            match space {
                Some((total, free)) => r.total_bytes == total && r.free_bytes == free && r.used_bytes == (if total
                    >= free {
                    total - free
                } else {
                    0
                }),
                None => r.total_bytes == 0 && r.free_bytes == 0 && r.used_bytes == 0,
            },
    {
        let (total_bytes, free_bytes) = match space {
            Some(s) => s,
            None => (0u64, 0u64),
        };
        let status = if storage_up {
            ComponentHealth::Up
        } else {
            ComponentHealth::Down(String::from_str(STORAGE_UNREACHABLE))
        };
        StorageHealth { status, used_bytes: total_bytes.saturating_sub(free_bytes), free_bytes, total_bytes }
    }
}

/// Counts shown on the admin dashboard.
#[derive(Debug, Clone, PartialEq, Eq)]
pub struct AdminStats {
    pub total_users: usize,
    pub total_repositories: usize,
    pub total_active_permissions: usize,
}

pub struct GetAdminStatsUseCase {}

impl GetAdminStatsUseCase {
    /// The dashboard counts: every user, every repository, and the active permissions.
    pub fn execute(users: &Vec<User>, repositories: &Vec<PackageRepositorySummary>, active_permissions: usize) -> (r: AdminStats)
        ensures
            r.total_users == users@.len(),
            r.total_repositories == repositories@.len(),
            r.total_active_permissions == active_permissions,
    {
        AdminStats { total_users: users.len(), total_repositories: repositories.len(), total_active_permissions: active_permissions }
    }
}

/// One repository's storage use against its quota.
#[derive(Debug, Clone, PartialEq, Eq)]
pub struct RepositoryUsage {
    pub repository_id: u128,
    pub name: String,
    pub used_bytes: u64,
    /// `None` means unlimited.
    pub quota_bytes: Option<i64>,
}

/// The value stored for `key` in a table built by inserting the entries in order (so the last
/// entry for a key wins).
pub open spec fn table_lookup<V>(table: Seq<(u128, V)>, key: u128) -> Option<V>
    decreases table.len(),
{
    if table.len() == 0 {
        None
    } else if table.last().0 == key {
        Some(table.last().1)
    } else {
        table_lookup(table.drop_last(), key)
    }
}

pub fn lookup_u64(table: &Vec<(u128, u64)>, key: u128) -> (r: Option<u64>)
    ensures
        r == table_lookup(table@, key),
{
    let mut i: usize = table.len();
    assert(table@.subrange(0, table@.len() as int) =~= table@);
    while i > 0
        invariant
            i <= table@.len(),
            table_lookup(table@, key) == table_lookup(table@.subrange(0, i as int), key),
        decreases i,
    {
        assert(table@.subrange(0, i - 1) =~= table@.subrange(0, i as int).drop_last());
        if table[i - 1].0 == key {
            return Some(table[i - 1].1);
        }
        i = i - 1;
    }
    None
}

pub open spec fn usage_of(repo: PackageRepositorySummary, npm_usage: Seq<(u128, u64)>, docker_usage: Seq<(u128, u64)>) -> u64 {
    let table = match repo.format {
        RepositoryFormat::Npm => npm_usage,
        RepositoryFormat::Docker => docker_usage,
    };
    match table_lookup(table, repo.id) {
        Some(b) => b,
        None => 0,
    }
}

pub struct GetUsageMetricsUseCase {}

impl GetUsageMetricsUseCase {
    /// Each repository's usage, in the order given: npm repositories are measured on the
    /// storage backend (`npm_usage`), docker ones by their blobs (`docker_usage`); a repository
    /// missing from its table used nothing.
    pub fn execute(
        repositories: Vec<PackageRepositorySummary>,
        npm_usage: &Vec<(u128, u64)>,
        docker_usage: &Vec<(u128, u64)>,
    ) -> (r: Vec<RepositoryUsage>)
        ensures
            r@.len() == repositories@.len(),
            forall|i: int|
                0 <= i < r@.len() ==> {
                    let u = #[trigger] r@[i];
                    let repo = repositories@[i];
                    &&& u.repository_id == repo.id
                    &&& u.name@ == repo.name@
                    &&& u.quota_bytes == repo.quota_bytes
                    &&& u.used_bytes == usage_of(repo, npm_usage@, docker_usage@)
                },
    {
        let mut out: Vec<RepositoryUsage> = Vec::new();
        let mut i: usize = 0;
        while i < repositories.len()
            invariant
                i <= repositories@.len(),
                out@.len() == i,
                forall|j: int|
                    0 <= j < i ==> {
                        let u = #[trigger] out@[j];
                        let repo = repositories@[j];
                        &&& u.repository_id == repo.id
                        &&& u.name@ == repo.name@
                        &&& u.quota_bytes == repo.quota_bytes
                        &&& u.used_bytes == usage_of(repo, npm_usage@, docker_usage@)
                    },
            decreases repositories@.len() - i,
        {
            let repo = &repositories[i];
            let found = match repo.format {
                RepositoryFormat::Npm => lookup_u64(npm_usage, repo.id),
                RepositoryFormat::Docker => lookup_u64(docker_usage, repo.id),
            };
            let used_bytes = match found {
                Some(b) => b,
                None => 0,
            };
            out.push(RepositoryUsage { repository_id: repo.id, name: repo.name.clone(), used_bytes, quota_bytes: repo.quota_bytes });
            i = i + 1;
        }
        out
    }
}

/// The storage total of a snapshot: each repository's bytes read as a signed 64-bit count (as
/// the snapshot stores them), summed.
pub open spec fn storage_total(usages: Seq<RepositoryUsage>) -> int
    decreases usages.len(),
{
    if usages.len() == 0 {
        0
    } else {
        storage_total(usages.drop_last()) + (usages.last().used_bytes as i64) as int
    }
}

/// Whether every running total of the sum stays within 64 bits.
pub open spec fn totals_fit(usages: Seq<RepositoryUsage>) -> bool {
    forall|k: int| 0 <= k <= usages.len() ==> i64::MIN <= #[trigger] storage_total(usages.subrange(0, k)) <= i64::MAX
}

/// A periodic snapshot of the instance's totals, charted by the admin UI.
#[derive(Debug, Clone, Copy, PartialEq, Eq, Structural)]
pub struct MetricsSnapshot {
    pub id: u128,
    pub recorded_at: i64,
    pub total_users: i64,
    pub total_repositories: i64,
    pub total_storage_bytes: i64,
}

pub struct RecordMetricsSnapshotUseCase {}

impl RecordMetricsSnapshotUseCase {
    /// The snapshot of `user_count` users and the repositories' usage.
    pub fn snapshot(id: u128, recorded_at: i64, user_count: usize, usages: &Vec<RepositoryUsage>) -> (r: MetricsSnapshot)
        requires
            user_count <= i64::MAX,
            usages@.len() <= i64::MAX,
            totals_fit(usages@),
        ensures
            r.id == id,
            r.recorded_at == recorded_at,
            r.total_users == user_count,
            r.total_repositories == usages@.len(),
            r.total_storage_bytes == storage_total(usages@),
    {
        let mut total: i64 = 0;
        let mut i: usize = 0;
        assert(usages@.subrange(0, 0) =~= Seq::<RepositoryUsage>::empty());
        while i < usages.len()
            invariant
                i <= usages@.len(),
                totals_fit(usages@),
                total == storage_total(usages@.subrange(0, i as int)),
            decreases usages@.len() - i,
        {
            assert(usages@.subrange(0, i + 1).drop_last() =~= usages@.subrange(0, i as int));
            assert(i64::MIN <= storage_total(usages@.subrange(0, i + 1)) <= i64::MAX);
            let bytes = usages[i].used_bytes as i64;
            total = total + bytes;
            i = i + 1;
        }
        assert(usages@.subrange(0, usages@.len() as int) =~= usages@);
        MetricsSnapshot {
            id,
            recorded_at,
            total_users: user_count as i64,
            total_repositories: usages.len() as i64,
            total_storage_bytes: total,
        }
    }
}

/// A token as the super-admin's token list shows it.
#[derive(Debug, Clone, PartialEq, Eq)]
pub struct AdminApiTokenEntry {
    pub id: u128,
    pub user_id: u128,
    pub username: String,
    /// `None` for a token whose owning user no longer exists: only a super-admin can manage it.
    pub organization_id: Option<u128>,
    pub label: String,
    pub created_at: i64,
    pub last_used_at: Option<i64>,
    pub revoked_at: Option<i64>,
}

/// The name an orphaned token is listed under.
pub const DELETED_USER_PLACEHOLDER: &'static str = "(utilisateur supprimé)";

/// The user with this id, the last one listed if several are.
pub open spec fn owner_of(users: Seq<User>, id: u128) -> Option<User>
    decreases users.len(),
{
    if users.len() == 0 {
        None
    } else if users.last().id == id {
        Some(users.last())
    } else {
        owner_of(users.drop_last(), id)
    }
}

fn find_owner<'a>(users: &'a Vec<User>, id: u128) -> (r: Option<&'a User>)
    ensures
        match r {
            Some(u) => owner_of(users@, id) == Some(*u),
            None => owner_of(users@, id) is None,
        },
{
    let mut i: usize = users.len();
    assert(users@.subrange(0, users@.len() as int) =~= users@);
    while i > 0
        invariant
            i <= users@.len(),
            owner_of(users@, id) == owner_of(users@.subrange(0, i as int), id),
        decreases i,
    {
        assert(users@.subrange(0, i - 1) =~= users@.subrange(0, i as int).drop_last());
        if users[i - 1].id == id {
            return Some(&users[i - 1]);
        }
        i = i - 1;
    }
    None
}

pub open spec fn admin_entry_ok(e: AdminApiTokenEntry, t: ApiToken, users: Seq<User>) -> bool {
    &&& e.id == t.id
    &&& e.user_id == t.user_id
    &&& e.label@ == t.label@
    &&& e.created_at == t.created_at
    &&& e.last_used_at == t.last_used_at
    &&& e.revoked_at == t.revoked_at
    &&& match owner_of(users, t.user_id) {
        Some(u) => e.username@ == u.username@ && e.organization_id == Some(u.organization_id),
        None => e.username@ == DELETED_USER_PLACEHOLDER@ && e.organization_id is None,
    }
}

pub struct AdminListApiTokensUseCase {}

impl AdminListApiTokensUseCase {
    /// Every token with its owner's name and organization; an orphaned token is listed under a
    /// placeholder name rather than dropped.
    pub fn execute(tokens: &Vec<ApiToken>, users: &Vec<User>) -> (r: Vec<AdminApiTokenEntry>)
        ensures
            r@.len() == tokens@.len(),
            forall|i: int| 0 <= i < r@.len() ==> admin_entry_ok(#[trigger] r@[i], tokens@[i], users@),
    {
        let mut out: Vec<AdminApiTokenEntry> = Vec::new();
        let mut i: usize = 0;
        while i < tokens.len()
            invariant
                i <= tokens@.len(),
                out@.len() == i,
                forall|j: int| 0 <= j < i ==> admin_entry_ok(#[trigger] out@[j], tokens@[j], users@),
            decreases tokens@.len() - i,
        {
            let t = &tokens[i];
            let (username, organization_id) = match find_owner(users, t.user_id) {
                Some(u) => (u.username.clone(), Some(u.organization_id)),
                None => (String::from_str(DELETED_USER_PLACEHOLDER), None),
            };
            out.push(
                AdminApiTokenEntry {
                    id: t.id,
                    user_id: t.user_id,
                    username,
                    organization_id,
                    label: t.label.clone(),
                    created_at: t.created_at,
                    last_used_at: t.last_used_at,
                    revoked_at: t.revoked_at,
                },
            );
            i = i + 1;
        }
        out
    }
}

#[derive(Debug, Clone, PartialEq, Eq)]
pub struct ExportedUser {
    pub id: u128,
    pub username: String,
    pub is_super_admin: bool,
    pub created_at: i64,
    pub email: Option<String>,
}

#[derive(Debug, Clone, PartialEq, Eq)]
pub struct ExportedRepository {
    pub id: u128,
    pub name: String,
    pub format: RepositoryFormat,
    pub repo_type: RepositoryType,
    pub remote_url: Option<String>,
    pub remote_username: Option<String>,
    pub remote_password: Option<String>,
    pub group_members: Vec<u128>,
    pub quota_bytes: Option<i64>,
    pub retention_keep_last_n: Option<i32>,
}

#[derive(Debug, Clone, Copy, PartialEq, Eq)]
pub struct ExportedPermission {
    pub user_id: u128,
    pub repository_id: u128,
    pub role: Role,
}

/// An instance's configuration as downloaded by an admin: no packages or images (too large) and
/// no credentials, since the file ends up on disk.
#[derive(Debug, Clone, PartialEq, Eq)]
pub struct ConfigurationExport {
    pub exported_at: i64,
    pub users: Vec<ExportedUser>,
    pub repositories: Vec<ExportedRepository>,
    pub permissions: Vec<ExportedPermission>,
    pub system_settings: SystemSettings,
}

pub open spec fn opt_string_view(o: Option<String>) -> Option<Seq<char>> {
    match o {
        Some(s) => Some(s@),
        None => None,
    }
}

pub open spec fn exported_user_ok(e: ExportedUser, u: User) -> bool {
    &&& e.id == u.id
    &&& e.username@ == u.username@
    &&& e.is_super_admin == u.is_super_admin
    &&& e.created_at == u.created_at
    &&& opt_string_view(e.email) == opt_string_view(u.email)
}

/// The repository as exported: everything but the proxy credentials, which are never written.
pub open spec fn exported_repository_ok(e: ExportedRepository, r: PackageRepositorySummary) -> bool {
    &&& e.id == r.id
    &&& e.name@ == r.name@
    &&& e.format == r.format
    &&& e.repo_type == r.repo_type
    &&& opt_string_view(e.remote_url) == opt_string_view(r.remote_url)
    &&& e.remote_username is None
    &&& e.remote_password is None
    &&& e.group_members@ == r.group_members@
    &&& e.quota_bytes == r.quota_bytes
    &&& e.retention_keep_last_n == r.retention_keep_last_n
}

fn clone_opt_string(o: &Option<String>) -> (r: Option<String>)
    ensures
        opt_string_view(r) == opt_string_view(*o),
{
    match o {
        Some(s) => Some(s.clone()),
        None => None,
    }
}

fn clone_ids(v: &Vec<u128>) -> (r: Vec<u128>)
    ensures
        r@ == v@,
{
    let mut out: Vec<u128> = Vec::new();
    let mut i: usize = 0;
    while i < v.len()
        invariant
            i <= v@.len(),
            out@ == v@.subrange(0, i as int),
        decreases v@.len() - i,
    {
        out.push(v[i]);
        i = i + 1;
    }
    assert(v@.subrange(0, v@.len() as int) =~= v@);
    out
}

pub struct ExportConfigurationUseCase {}

impl ExportConfigurationUseCase {
    /// Builds the export from what is stored: every user, every repository with its proxy
    /// credentials left out, every permission, and the public organization's settings.
    pub fn execute(
        users: &Vec<User>,
        repositories: &Vec<PackageRepositorySummary>,
        permissions: &Vec<(u128, u128, Role)>,
        system_settings: SystemSettings,
        exported_at: i64,
    ) -> (r: ConfigurationExport)
        ensures
            r.exported_at == exported_at,
            r.system_settings == system_settings,
            r.users@.len() == users@.len(),
            forall|i: int| 0 <= i < users@.len() ==> exported_user_ok(#[trigger] r.users@[i], users@[i]),
            r.repositories@.len() == repositories@.len(),
            forall|i: int|
                0 <= i < repositories@.len() ==> exported_repository_ok(#[trigger] r.repositories@[i], repositories@[i]),
            r.permissions@.len() == permissions@.len(),
            forall|i: int|
                0 <= i < permissions@.len() ==> (#[trigger] r.permissions@[i]) == (ExportedPermission {
                    user_id: permissions@[i].0,
                    repository_id: permissions@[i].1,
                    role: permissions@[i].2,
                }),
    {
        let mut out_users: Vec<ExportedUser> = Vec::new();
        let mut i: usize = 0;
        while i < users.len()
            invariant
                i <= users@.len(),
                out_users@.len() == i,
                forall|j: int| 0 <= j < i ==> exported_user_ok(#[trigger] out_users@[j], users@[j]),
            decreases users@.len() - i,
        {
            let u = &users[i];
            out_users.push(
                ExportedUser {
                    id: u.id,
                    username: u.username.clone(),
                    is_super_admin: u.is_super_admin,
                    created_at: u.created_at,
                    email: clone_opt_string(&u.email),
                },
            );
            i = i + 1;
        }
        let mut out_repos: Vec<ExportedRepository> = Vec::new();
        let mut k: usize = 0;
        while k < repositories.len()
            invariant
                k <= repositories@.len(),
                out_repos@.len() == k,
                forall|j: int| 0 <= j < k ==> exported_repository_ok(#[trigger] out_repos@[j], repositories@[j]),
            decreases repositories@.len() - k,
        {
            let r = &repositories[k];
            out_repos.push(
                ExportedRepository {
                    id: r.id,
                    name: r.name.clone(),
                    format: r.format,
                    repo_type: r.repo_type,
                    remote_url: clone_opt_string(&r.remote_url),
                    remote_username: None,
                    remote_password: None,
                    group_members: clone_ids(&r.group_members),
                    quota_bytes: r.quota_bytes,
                    retention_keep_last_n: r.retention_keep_last_n,
                },
            );
            k = k + 1;
        }
        let mut out_perms: Vec<ExportedPermission> = Vec::new();
        let mut p: usize = 0;
        while p < permissions.len()
            invariant
                p <= permissions@.len(),
                out_perms@.len() == p,
                forall|j: int|
                    0 <= j < p ==> (#[trigger] out_perms@[j]) == (ExportedPermission {
                        user_id: permissions@[j].0,
                        repository_id: permissions@[j].1,
                        role: permissions@[j].2,
                    }),
            decreases permissions@.len() - p,
        {
            let (user_id, repository_id, role) = permissions[p];
            out_perms.push(ExportedPermission { user_id, repository_id, role });
            p = p + 1;
        }
        ConfigurationExport {
            exported_at,
            users: out_users,
            repositories: out_repos,
            permissions: out_perms,
            system_settings,
        }
    }
}

/// An export read back for import.
#[derive(Debug, Clone, PartialEq, Eq)]
pub struct ConfigurationImport {
    pub users: Vec<ExportedUser>,
    pub repositories: Vec<ExportedRepository>,
    pub permissions: Vec<ExportedPermission>,
    pub system_settings: SystemSettings,
}

/// What an import did. Nothing stops at the first failure: each failure is listed and the
/// import goes on.
#[derive(Debug, Clone, PartialEq, Eq)]
pub struct ImportReport {
    pub users_created: usize,
    pub repositories_created: usize,
    pub permissions_granted: usize,
    pub invited: Vec<String>,
    pub skipped_no_email: Vec<String>,
    pub failed: Vec<String>,
    /// Proxy repositories restored without credentials: expected, since exports never hold them.
    pub proxy_credentials_needed: Vec<String>,
}

impl Default for ImportReport {
    fn default() -> (r: Self)
        ensures
            r.users_created == 0,
            r.repositories_created == 0,
            r.permissions_granted == 0,
            r.invited@.len() == 0,
            r.skipped_no_email@.len() == 0,
            r.failed@.len() == 0,
            r.proxy_credentials_needed@.len() == 0,
    {
        ImportReport {
            users_created: 0,
            repositories_created: 0,
            permissions_granted: 0,
            invited: Vec::new(),
            skipped_no_email: Vec::new(),
            failed: Vec::new(),
            proxy_credentials_needed: Vec::new(),
        }
    }
}

/// Whether some stored user is someone else than the acting admin.
pub open spec fn has_other_user(users: Seq<User>, actor_id: u128) -> bool {
    exists|i: int| 0 <= i < users.len() && users[i].id != actor_id
}

/// Why a restored user is refused when the signed-in admin already holds the name.
pub const USERNAME_TAKEN_BY_ACTOR: &'static str = "username already taken by the signed-in account";

/// What a restored repository step or permission step reports when it fails.
pub open spec fn failure_spec(subject: Seq<char>, detail: Seq<char>) -> Seq<char> {
    subject + ": "@ + detail
}

/// How one group member is restored: added at its position under its new id, or reported as
/// never created.
#[derive(Debug, Clone, PartialEq, Eq)]
pub enum GroupMemberStep {
    Add { member: u128, position: i32 },
    Missing(String),
}

pub open spec fn missing_member_message(repository_name: Seq<char>, old_member_id: u128) -> Seq<char> {
    "repository "@ + repository_name + ": group member "@ + uuid_text_spec(old_member_id) + " was never created"@
}

pub open spec fn group_member_step_ok(
    step: GroupMemberStep,
    repository_name: Seq<char>,
    old_member_id: u128,
    position: int,
    created: Map<u128, u128>,
) -> bool {
    match map_lookup(created, old_member_id) {
        Some(new_id) => step == GroupMemberStep::Add { member: new_id, position: position as i32 },
        None => step matches GroupMemberStep::Missing(m) && m@ == missing_member_message(repository_name, old_member_id),
    }
}

pub open spec fn user_never_restored_message(user_id: u128) -> Seq<char> {
    "permission for "@ + uuid_text_spec(user_id) + ": user was never restored"@
}

pub open spec fn repository_never_created_message(user_id: u128, repository_id: u128) -> Seq<char> {
    "permission for "@ + uuid_text_spec(user_id) + ": repository "@ + uuid_text_spec(repository_id)
        + " was never created"@
}

/// A permission is granted only when its user was restored and its repository created; it is
/// then granted on the repository's new id.
pub open spec fn permission_outcome(
    p: ExportedPermission,
    restored: Set<u128>,
    created: Map<u128, u128>,
) -> Result<(u128, u128, Role), Seq<char>> {
    if !restored.contains(p.user_id) {
        Err(user_never_restored_message(p.user_id))
    } else {
        match map_lookup(created, p.repository_id) {
            None => Err(repository_never_created_message(p.user_id, p.repository_id)),
            Some(new_id) => Ok((p.user_id, new_id, p.role)),
        }
    }
}

/// What the invitation pass does for one exported user.
#[derive(Debug, Clone, PartialEq, Eq)]
pub enum InvitationStep {
    /// The user was never restored: nothing to do.
    NotRestored,
    /// Restored but without an address: listed as skipped.
    NoEmail,
    /// Restored: invite at this address.
    Invite(String),
}

/// Restoring a configuration exported elsewhere into an empty instance. The stored records are
/// read and written by the caller; these steps decide what is restored and what is reported.
pub struct ImportConfigurationUseCase {
    /// No trailing slash.
    pub hangar_base_domain: String,
}

/// Whether the user exported as `id` was restored.
fn contains_id(restored: &HashSet<u128>, id: u128) -> (r: bool)
    ensures
        r == restored@.contains(id),
{
    broadcast use vstd::std_specs::hash::group_hash_axioms;

    restored.contains(&id)
}

/// The id a repository exported as `key` was created under, if it was.
pub open spec fn map_lookup(created: Map<u128, u128>, key: u128) -> Option<u128> {
    if created.contains_key(key) {
        Some(created[key])
    } else {
        None
    }
}

/// The id the repository exported as `key` was created under, if it was.
pub fn lookup_id(created: &HashMap<u128, u128>, key: u128) -> (r: Option<u128>)
    ensures
        r == map_lookup(created@, key),
{
    broadcast use vstd::std_specs::hash::group_hash_axioms;

    match created.get(&key) {
        Some(v) => Some(*v),
        None => None,
    }
}

impl ImportConfigurationUseCase {
    pub fn new(hangar_base_domain: String) -> (r: Self)
        ensures
            r.hangar_base_domain@ == hangar_base_domain@,
    {
        ImportConfigurationUseCase { hangar_base_domain }
    }

    /// The guard before anything is restored: the instance must hold no repository and no user
    /// but the acting admin, whose organization the restored users join.
    pub fn restore_organization(repository_count: usize, existing_users: &Vec<User>, actor_id: u128) -> (r: Result<
        u128,
        ApplicationError,
    >)
        ensures
            (repository_count > 0 || has_other_user(existing_users@, actor_id)) ==> r == Err::<u128, ApplicationError>(
                ApplicationError::InstanceNotEmpty,
            ),
            (repository_count == 0 && !has_other_user(existing_users@, actor_id) && existing_users@.len() == 0) ==> r
                == Err::<u128, ApplicationError>(ApplicationError::ActingAdminNotFound),
            (repository_count == 0 && !has_other_user(existing_users@, actor_id) && existing_users@.len() > 0) ==> r
                == Ok::<u128, ApplicationError>(existing_users@[0].organization_id),
    {
        if repository_count > 0 {
            return Err(ApplicationError::InstanceNotEmpty);
        }
        let mut i: usize = 0;
        while i < existing_users.len()
            invariant
                i <= existing_users@.len(),
                forall|j: int| 0 <= j < i ==> existing_users@[j].id == actor_id,
            decreases existing_users@.len() - i,
        {
            if existing_users[i].id != actor_id {
                return Err(ApplicationError::InstanceNotEmpty);
            }
            i = i + 1;
        }
        if existing_users.len() == 0 {
            Err(ApplicationError::ActingAdminNotFound)
        } else {
            Ok(existing_users[0].organization_id)
        }
    }

    /// The account a restored user gets: its exported id, name, super-admin flag, creation time
    /// and address, in the acting admin's organization, never an organization admin, with the
    /// unusable password hash given; its tokens count from its creation time.
    pub fn restored_user(user: &ExportedUser, username: String, password_hash: String, organization_id: u128) -> (r: User)
        ensures
            r.id == user.id,
            r.username == username,
            r.password_hash == password_hash,
            r.is_super_admin == user.is_super_admin,
            !r.is_organization_admin,
            r.organization_id == organization_id,
            r.created_at == user.created_at,
            r.tokens_valid_after == user.created_at,
            opt_string_view(r.email) == opt_string_view(user.email),
    {
        User {
            id: user.id,
            username,
            password_hash,
            is_super_admin: user.is_super_admin,
            is_organization_admin: false,
            organization_id,
            created_at: user.created_at,
            tokens_valid_after: user.created_at,
            email: match &user.email {
                Some(e) => Some(e.clone()),
                None => None,
            },
        }
    }

    /// `"<subject>: <detail>"`, the form of every failure in the report.
    pub fn failure(subject: &str, detail: &str) -> (r: String)
        ensures
            r@ == failure_spec(subject@, detail@),
    {
        let mut r = String::from_str(subject);
        r.append(": ");
        r.append(detail);
        r
    }

    /// A proxy repository restored without credentials is listed so they can be entered again.
    pub fn needs_proxy_credentials(repository: &ExportedRepository) -> (r: bool)
        ensures
            r == (repository.repo_type == RepositoryType::Proxy && repository.remote_username is None
                && repository.remote_password is None),
    {
        repository.repo_type == RepositoryType::Proxy && repository.remote_username.is_none()
            && repository.remote_password.is_none()
    }

    /// How each member of a restored group is re-added, in order, position by position (the
    /// position as an `i32`, wrapping past its range), under its new id (`created` maps
    /// exported ids to the ids the repositories were created under).
    pub fn group_member_steps(repository: &ExportedRepository, created: &HashMap<u128, u128>) -> (r: Vec<
        GroupMemberStep,
    >)
        ensures
            r@.len() == repository.group_members@.len(),
            forall|i: int|
                0 <= i < r@.len() ==> group_member_step_ok(
                    #[trigger] r@[i],
                    repository.name@,
                    repository.group_members@[i],
                    i,
                    created@,
                ),
    {
        let mut out: Vec<GroupMemberStep> = Vec::new();
        let mut i: usize = 0;
        while i < repository.group_members.len()
            invariant
                i <= repository.group_members@.len(),
                out@.len() == i,
                forall|j: int|
                    0 <= j < i ==> group_member_step_ok(
                        #[trigger] out@[j],
                        repository.name@,
                        repository.group_members@[j],
                        j,
                        created@,
                    ),
            decreases repository.group_members@.len() - i,
        {
            let old_member_id = repository.group_members[i];
            match lookup_id(created, old_member_id) {
                Some(member) => {
                    out.push(GroupMemberStep::Add { member, position: #[verifier::truncate] (i as i32) });
                },
                None => {
                    let mut m = String::from_str("repository ");
                    m.append(repository.name.as_str());
                    m.append(": group member ");
                    let id_text = uuid_text(old_member_id);
                    m.append(id_text.as_str());
                    m.append(" was never created");
                    out.push(GroupMemberStep::Missing(m));
                },
            }
            i = i + 1;
        }
        out
    }

    /// Whether a permission can be granted, and on which repository id; otherwise the failure
    /// to report. `restored` holds the users actually inserted.
    pub fn permission_step(permission: &ExportedPermission, restored: &HashSet<u128>, created: &HashMap<u128, u128>) -> (r:
        Result<(u128, u128, Role), String>)
        ensures
            match (r, permission_outcome(*permission, restored@, created@)) {
                (Ok(g), Ok(h)) => g == h,
                (Err(m), Err(n)) => m@ == n,
                _ => false,
            },
    {
        if !contains_id(restored, permission.user_id) {
            let mut m = String::from_str("permission for ");
            let u = uuid_text(permission.user_id);
            m.append(u.as_str());
            m.append(": user was never restored");
            return Err(m);
        }
        match lookup_id(created, permission.repository_id) {
            None => {
                let mut m = String::from_str("permission for ");
                let u = uuid_text(permission.user_id);
                m.append(u.as_str());
                m.append(": repository ");
                let rid = uuid_text(permission.repository_id);
                m.append(rid.as_str());
                m.append(" was never created");
                Err(m)
            },
            Some(new_id) => Ok((permission.user_id, new_id, permission.role)),
        }
    }

    /// The invitation pass skips users that were never restored, lists those without an
    /// address, and invites the others.
    pub fn invitation_step(user: &ExportedUser, restored: &HashSet<u128>) -> (r: InvitationStep)
        ensures
            !restored@.contains(user.id) ==> r == InvitationStep::NotRestored,
            restored@.contains(user.id) && user.email is None ==> r == InvitationStep::NoEmail,
            restored@.contains(user.id) && user.email is Some ==> (r matches InvitationStep::Invite(e) && e@
                == user.email.unwrap()@),
    {
        if !contains_id(restored, user.id) {
            return InvitationStep::NotRestored;
        }
        match &user.email {
            None => InvitationStep::NoEmail,
            Some(e) => InvitationStep::Invite(e.clone()),
        }
    }
}


/// How the invitation of one restored user with an address ended.
#[derive(Debug, Clone, PartialEq, Eq)]
pub enum InvitationOutcome {
    /// The invitation was stored and its email sent.
    Sent,
    /// Storing the invitation failed, for this reason.
    NotStored(String),
    /// The invitation was stored but its email failed, for this reason.
    NotSent(String),
}

/// A setting restored on a created repository, under its new id.
#[derive(Debug, Clone, Copy, PartialEq, Eq)]
pub enum RepositoryFollowUp {
    SetQuota { repository_id: u128, quota_bytes: i64 },
    SetRetention { repository_id: u128, keep_last_n: i32 },
}

/// What a follow-up's failure is reported about.
pub open spec fn follow_up_subject(repository_name: Seq<char>, f: RepositoryFollowUp) -> Seq<char> {
    match f {
        RepositoryFollowUp::SetQuota { .. } => "repository "@ + repository_name + " quota"@,
        RepositoryFollowUp::SetRetention { .. } => "repository "@ + repository_name + " retention"@,
    }
}

/// An import under way: the report so far, the exported ids of the users inserted, and the id
/// each created repository was created under, by its exported id.
#[derive(Debug)]
pub struct ImportProgress {
    pub report: ImportReport,
    pub restored: HashSet<u128>,
    pub created: HashMap<u128, u128>,
}

/// The failure list `after` is `before` with one more entry, `message`, at its end.
pub open spec fn pushed_failure(before: Seq<String>, after: Seq<String>, message: Seq<char>) -> bool {
    &&& after.len() == before.len() + 1
    &&& after.subrange(0, before.len() as int) == before
    &&& after[before.len() as int]@ == message
}

/// What recording one restored user's outcome does: an inserted user is counted and its id
/// kept as restored; a failure is listed as `"user <name>: <why>"`; nothing else changes.
pub open spec fn user_recorded(before: ImportProgress, after: ImportProgress, user: ExportedUser, outcome: Result<(), String>) -> bool {
    &&& after.created@ == before.created@
    &&& after.report.repositories_created == before.report.repositories_created
    &&& after.report.permissions_granted == before.report.permissions_granted
    &&& after.report.invited == before.report.invited
    &&& after.report.skipped_no_email == before.report.skipped_no_email
    &&& after.report.proxy_credentials_needed == before.report.proxy_credentials_needed
    &&& match outcome {
        Ok(()) => {
            &&& after.restored@ == before.restored@.insert(user.id)
            &&& after.report.users_created == before.report.users_created + 1
            &&& after.report.failed == before.report.failed
        },
        Err(why) => {
            &&& after.restored@ == before.restored@
            &&& after.report.users_created == before.report.users_created
            &&& pushed_failure(before.report.failed@, after.report.failed@, failure_spec("user "@ + user.username@, why@))
        },
    }
}

/// How many outcomes are successes.
pub open spec fn ok_count(outcomes: Seq<Result<(), String>>) -> nat
    decreases outcomes.len(),
{
    if outcomes.len() == 0 {
        0
    } else {
        ok_count(outcomes.drop_last()) + if outcomes.last() is Ok {
            1nat
        } else {
            0nat
        }
    }
}

/// The ids of the users whose outcome is a success.
pub open spec fn ok_ids(users: Seq<ExportedUser>, outcomes: Seq<Result<(), String>>) -> Set<u128>
    decreases outcomes.len(),
{
    if outcomes.len() == 0 || users.len() == 0 {
        Set::empty()
    } else {
        let rest = ok_ids(users.drop_last(), outcomes.drop_last());
        if outcomes.last() is Ok {
            rest.insert(users.last().id)
        } else {
            rest
        }
    }
}

/// Recording each exported user's outcome in turn accounts for every one: the count of users
/// created grows by the number of successful inserts, exactly their ids join the restored set,
/// and each failure adds one entry to the failures.
pub proof fn lemma_users_accounted(
    users: Seq<ExportedUser>,
    outcomes: Seq<Result<(), String>>,
    states: Seq<ImportProgress>,
)
    requires
        outcomes.len() == users.len(),
        states.len() == users.len() + 1,
        forall|i: int| 0 <= i < users.len() ==> #[trigger] user_recorded(states[i], states[i + 1], users[i], outcomes[i]),
    ensures
        states.last().report.users_created == states[0].report.users_created + ok_count(outcomes),
        states.last().restored@ == states[0].restored@.union(ok_ids(users, outcomes)),
        states.last().report.failed@.len() == states[0].report.failed@.len() + users.len() - ok_count(outcomes),
        states.last().created@ == states[0].created@,
    decreases users.len(),
{
    if users.len() > 0 {
        let n = users.len() - 1;
        let prefix = states.subrange(0, n + 1);
        assert forall|i: int| 0 <= i < users.drop_last().len() implies #[trigger] user_recorded(
            prefix[i],
            prefix[i + 1],
            users.drop_last()[i],
            outcomes.drop_last()[i],
        ) by {
            assert(user_recorded(states[i], states[i + 1], users[i], outcomes[i]));
        }
        lemma_users_accounted(users.drop_last(), outcomes.drop_last(), prefix);
        assert(user_recorded(states[n], states[n + 1], users[n], outcomes[n]));
        assert(prefix.last() == states[n]);
        lemma_ok_count_bound(outcomes.drop_last());
        if outcomes.last() is Ok {
            assert(states.last().restored@ =~= states[0].restored@.union(ok_ids(users, outcomes)));
        } else {
            assert(states.last().restored@ =~= states[0].restored@.union(ok_ids(users, outcomes)));
        }
    }
}

proof fn lemma_ok_count_bound(outcomes: Seq<Result<(), String>>)
    ensures
        ok_count(outcomes) <= outcomes.len(),
    decreases outcomes.len(),
{
    if outcomes.len() > 0 {
        lemma_ok_count_bound(outcomes.drop_last());
    }
}

/// A created proxy repository without credentials: it is listed so they can be entered again.
pub open spec fn needs_credentials(r: ExportedRepository) -> bool {
    r.repo_type == RepositoryType::Proxy && r.remote_username is None && r.remote_password is None
}

/// The proxies listed once a repository's creation ended with `outcome`.
pub open spec fn proxies_after(before: Seq<String>, r: ExportedRepository, outcome: Result<u128, String>) -> Seq<String> {
    if outcome is Ok && needs_credentials(r) {
        before.push(r.name)
    } else {
        before
    }
}

/// The names of the created proxies without credentials, in order.
pub open spec fn flagged_proxies(repos: Seq<ExportedRepository>, outcomes: Seq<Result<u128, String>>) -> Seq<String>
    decreases repos.len(),
{
    if repos.len() == 0 || outcomes.len() == 0 {
        Seq::empty()
    } else {
        proxies_after(flagged_proxies(repos.drop_last(), outcomes.drop_last()), repos.last(), outcomes.last())
    }
}

/// Recording every repository's creation in turn lists, in order, exactly the created proxies
/// that came without credentials.
pub proof fn lemma_proxies_accounted(
    repos: Seq<ExportedRepository>,
    outcomes: Seq<Result<u128, String>>,
    states: Seq<ImportProgress>,
)
    requires
        outcomes.len() == repos.len(),
        states.len() == repos.len() + 1,
        forall|i: int|
            0 <= i < repos.len() ==> (#[trigger] states[i + 1]).report.proxy_credentials_needed@ == proxies_after(
                states[i].report.proxy_credentials_needed@,
                repos[i],
                outcomes[i],
            ),
    ensures
        states.last().report.proxy_credentials_needed@ == states[0].report.proxy_credentials_needed@ + flagged_proxies(
            repos,
            outcomes,
        ),
    decreases repos.len(),
{
    if repos.len() == 0 {
        assert(states[0].report.proxy_credentials_needed@ + Seq::<String>::empty() =~= states[0].report.proxy_credentials_needed@);
    } else {
        let n = repos.len() - 1;
        let prefix = states.subrange(0, n + 1);
        assert forall|i: int| 0 <= i < repos.drop_last().len() implies (#[trigger] prefix[i + 1]).report.proxy_credentials_needed@
            == proxies_after(prefix[i].report.proxy_credentials_needed@, repos.drop_last()[i], outcomes.drop_last()[i]) by {
            assert(states[i + 1].report.proxy_credentials_needed@ == proxies_after(
                states[i].report.proxy_credentials_needed@,
                repos[i],
                outcomes[i],
            ));
        }
        lemma_proxies_accounted(repos.drop_last(), outcomes.drop_last(), prefix);
        assert(states[n + 1].report.proxy_credentials_needed@ == proxies_after(
            states[n].report.proxy_credentials_needed@,
            repos[n],
            outcomes[n],
        ));
        let base = states[0].report.proxy_credentials_needed@;
        let rest = flagged_proxies(repos.drop_last(), outcomes.drop_last());
        if outcomes.last() is Ok && needs_credentials(repos.last()) {
            assert(base + rest.push(repos.last().name) =~= (base + rest).push(repos.last().name));
        }
    }
}

/// Over the permission pass, each permission adds at most one grant (planning grants none,
/// recording a grant at most one), so no more are granted than were given.
pub proof fn lemma_grants_bounded(permissions: Seq<ExportedPermission>, states: Seq<ImportProgress>)
    requires
        states.len() == permissions.len() + 1,
        forall|i: int|
            0 <= i < permissions.len() ==> (#[trigger] states[i + 1]).report.permissions_granted
                <= states[i].report.permissions_granted + 1,
    ensures
        states.last().report.permissions_granted <= states[0].report.permissions_granted + permissions.len(),
    decreases permissions.len(),
{
    if permissions.len() > 0 {
        let n = permissions.len() - 1;
        let prefix = states.subrange(0, n + 1);
        assert forall|i: int| 0 <= i < permissions.drop_last().len() implies (#[trigger] prefix[i + 1]).report.permissions_granted
            <= prefix[i].report.permissions_granted + 1 by {
            assert(states[i + 1].report.permissions_granted <= states[i].report.permissions_granted + 1);
        }
        lemma_grants_bounded(permissions.drop_last(), prefix);
        assert(states[n + 1].report.permissions_granted <= states[n].report.permissions_granted + 1);
    }
}

/// What handling one exported user in the invitation pass does (planning, then recording the
/// invitation when an address was given): a user never restored changes neither list; a
/// restored user without an address joins the skipped; one with an address may join the
/// invited; the restored set stays.
pub open spec fn invitation_handled(before: ImportProgress, after: ImportProgress, u: ExportedUser) -> bool {
    &&& after.restored@ == before.restored@
    &&& if !before.restored@.contains(u.id) {
        after.report.skipped_no_email == before.report.skipped_no_email && after.report.invited == before.report.invited
    } else if u.email is None {
        after.report.skipped_no_email@ == before.report.skipped_no_email@.push(u.username) && after.report.invited
            == before.report.invited
    } else {
        after.report.skipped_no_email == before.report.skipped_no_email && (after.report.invited == before.report.invited
            || after.report.invited@ == before.report.invited@.push(u.username))
    }
}

/// Planning an exported user's invitation and, when an address came back, recording how the
/// invitation ended, handle the user as `invitation_handled` says.
pub proof fn lemma_invitation_handled(
    before: ImportProgress,
    mid: ImportProgress,
    after: ImportProgress,
    u: ExportedUser,
    planned: Option<String>,
)
    requires
        mid.restored@ == before.restored@,
        mid.report.invited == before.report.invited,
        !before.restored@.contains(u.id) ==> planned is None && mid.report.skipped_no_email
            == before.report.skipped_no_email,
        before.restored@.contains(u.id) && u.email is None ==> planned is None && mid.report.skipped_no_email@
            == before.report.skipped_no_email@.push(u.username),
        before.restored@.contains(u.id) && u.email is Some ==> planned is Some && mid.report.skipped_no_email
            == before.report.skipped_no_email,
        planned is None ==> after == mid,
        planned is Some ==> after.restored@ == mid.restored@ && after.report.skipped_no_email == mid.report.skipped_no_email
            && (after.report.invited == mid.report.invited || after.report.invited@ == mid.report.invited@.push(
            u.username,
        )),
    ensures
        invitation_handled(before, after, u),
{
}

/// The usernames of the restored users without an address, in order.
pub open spec fn no_email_names(users: Seq<ExportedUser>, restored: Set<u128>) -> Seq<String>
    decreases users.len(),
{
    if users.len() == 0 {
        Seq::empty()
    } else {
        let rest = no_email_names(users.drop_last(), restored);
        if restored.contains(users.last().id) && users.last().email is None {
            rest.push(users.last().username)
        } else {
            rest
        }
    }
}

/// Whether `name` is the username of an exported user restored with an address.
pub open spec fn invited_from(users: Seq<ExportedUser>, restored: Set<u128>, name: String) -> bool {
    exists|i: int|
        0 <= i < users.len() && restored.contains(users[i].id) && users[i].email is Some && #[trigger] users[i].username
            == name
}

/// The invitation pass, handling every exported user in turn, lists as skipped exactly the
/// restored users without an address, in order; whoever it lists as invited is a restored user
/// with an address; so when restored users' names are distinct, no name is both skipped and
/// invited by the pass.
pub proof fn lemma_invitations_accounted(users: Seq<ExportedUser>, states: Seq<ImportProgress>)
    requires
        states.len() == users.len() + 1,
        forall|i: int| 0 <= i < users.len() ==> #[trigger] invitation_handled(states[i], states[i + 1], users[i]),
    ensures
        states.last().restored@ == states[0].restored@,
        states.last().report.skipped_no_email@ == states[0].report.skipped_no_email@ + no_email_names(
            users,
            states[0].restored@,
        ),
        states[0].report.invited@.len() <= states.last().report.invited@.len(),
        states.last().report.invited@.subrange(0, states[0].report.invited@.len() as int) == states[0].report.invited@,
        forall|k: int|
            states[0].report.invited@.len() <= k < states.last().report.invited@.len() ==> invited_from(
                users,
                states[0].restored@,
                #[trigger] states.last().report.invited@[k],
            ),
    decreases users.len(),
{
    if users.len() == 0 {
        assert(states[0].report.skipped_no_email@ + Seq::<String>::empty() =~= states[0].report.skipped_no_email@);
        assert(states.last().report.invited@.subrange(0, states[0].report.invited@.len() as int) =~= states[0].report.invited@);
    } else {
        let n = users.len() - 1;
        let prefix = states.subrange(0, n + 1);
        assert forall|i: int| 0 <= i < users.drop_last().len() implies #[trigger] invitation_handled(
            prefix[i],
            prefix[i + 1],
            users.drop_last()[i],
        ) by {
            assert(invitation_handled(states[i], states[i + 1], users[i]));
        }
        lemma_invitations_accounted(users.drop_last(), prefix);
        assert(invitation_handled(states[n], states[n + 1], users[n]));
        let s0 = states[0];
        let sn = states[n];
        let last = states[n + 1];
        assert(prefix.last() == sn);
        let base = s0.report.skipped_no_email@;
        let rest = no_email_names(users.drop_last(), s0.restored@);
        if s0.restored@.contains(users[n].id) && users[n].email is None {
            assert(base + rest.push(users[n].username) =~= (base + rest).push(users[n].username));
        }
        let i0 = s0.report.invited@.len() as int;
        if last.report.invited != sn.report.invited {
            assert(last.report.invited@ == sn.report.invited@.push(users[n].username));
            assert(last.report.invited@.subrange(0, i0) =~= sn.report.invited@.subrange(0, i0));
        }
        assert forall|k: int| i0 <= k < last.report.invited@.len() implies invited_from(
            users,
            s0.restored@,
            #[trigger] last.report.invited@[k],
        ) by {
            if k < sn.report.invited@.len() {
                assert(last.report.invited@[k] == sn.report.invited@[k]);
                assert(invited_from(users.drop_last(), s0.restored@, sn.report.invited@[k]));
                let i = choose|i: int|
                    0 <= i < users.drop_last().len() && s0.restored@.contains(users.drop_last()[i].id)
                        && users.drop_last()[i].email is Some && users.drop_last()[i].username == sn.report.invited@[k];
                assert(users.drop_last()[i] == users[i]);
            } else {
                assert(last.report.invited != sn.report.invited);
                assert(sn.restored@ == s0.restored@);
                assert(sn.restored@.contains(users[n].id) && users[n].email is Some);
                assert(last.report.invited@[k] == users[n].username);
                assert(0 <= n < users.len() && s0.restored@.contains(users[n].id) && users[n].email is Some
                    && last.report.invited@[k] == users[n].username);
            }
        }
        assert(states.last() == last);
    }
}

proof fn lemma_no_email_names_from(users: Seq<ExportedUser>, restored: Set<u128>, k: int)
    requires
        0 <= k < no_email_names(users, restored).len(),
    ensures
        exists|i: int|
            0 <= i < users.len() && restored.contains(users[i].id) && users[i].email is None && #[trigger] users[i].username
                == no_email_names(users, restored)[k],
    decreases users.len(),
{
    let rest = no_email_names(users.drop_last(), restored);
    if k < rest.len() {
        lemma_no_email_names_from(users.drop_last(), restored, k);
        let i = choose|i: int|
            0 <= i < users.drop_last().len() && restored.contains(users.drop_last()[i].id) && users.drop_last()[i].email is None
                && users.drop_last()[i].username == rest[k];
        assert(users.drop_last()[i] == users[i]);
    } else {
        let n = users.len() - 1;
        assert(no_email_names(users, restored)[k] == users[n].username);
    }
}

/// When restored users' names are distinct, the pass lists no name both as skipped and as
/// invited.
pub proof fn lemma_invited_and_skipped_disjoint(users: Seq<ExportedUser>, restored: Set<u128>, name: String, k: int)
    requires
        forall|i: int, j: int|
            0 <= i < users.len() && 0 <= j < users.len() && i != j && restored.contains(users[i].id) && restored.contains(
                users[j].id,
            ) ==> #[trigger] users[i].username != #[trigger] users[j].username,
        invited_from(users, restored, name),
        0 <= k < no_email_names(users, restored).len(),
    ensures
        no_email_names(users, restored)[k] != name,
{
    lemma_no_email_names_from(users, restored, k);
    let i = choose|i: int|
        0 <= i < users.len() && restored.contains(users[i].id) && users[i].email is None && users[i].username
            == no_email_names(users, restored)[k];
    let j = choose|j: int|
        0 <= j < users.len() && restored.contains(users[j].id) && users[j].email is Some && users[j].username == name;
    if no_email_names(users, restored)[k] == name {
        assert(i != j);
        assert(users[i].username != users[j].username);
    }
}

impl ImportProgress {
    /// Nothing restored, nothing reported.
    pub fn new() -> (r: Self)
        ensures
            r.restored@ == Set::<u128>::empty(),
            r.created@ == Map::<u128, u128>::empty(),
            r.report.users_created == 0,
            r.report.repositories_created == 0,
            r.report.permissions_granted == 0,
            r.report.invited@.len() == 0,
            r.report.skipped_no_email@.len() == 0,
            r.report.failed@.len() == 0,
            r.report.proxy_credentials_needed@.len() == 0,
    {
        ImportProgress { report: ImportReport::default(), restored: HashSet::new(), created: HashMap::new() }
    }

    /// Records a failure about `subject` (`"<subject>: <detail>"`); nothing else changes.
    pub fn record_failure(&mut self, subject: &str, detail: &str)
        ensures
            pushed_failure(old(self).report.failed@, final(self).report.failed@, failure_spec(subject@, detail@)),
            final(self).report.users_created == old(self).report.users_created,
            final(self).report.repositories_created == old(self).report.repositories_created,
            final(self).report.permissions_granted == old(self).report.permissions_granted,
            final(self).report.invited == old(self).report.invited,
            final(self).report.skipped_no_email == old(self).report.skipped_no_email,
            final(self).report.proxy_credentials_needed == old(self).report.proxy_credentials_needed,
            final(self).restored@ == old(self).restored@,
            final(self).created@ == old(self).created@,
    {
        let m = ImportConfigurationUseCase::failure(subject, detail);
        let ghost before = self.report.failed@;
        self.report.failed.push(m);
        assert(self.report.failed@.subrange(0, before.len() as int) =~= before);
    }

    /// Lists a failure whose message a step already wrote (a group member never created);
    /// nothing else changes.
    pub fn record_message(&mut self, message: String)
        ensures
            pushed_failure(old(self).report.failed@, final(self).report.failed@, message@),
            final(self).report.users_created == old(self).report.users_created,
            final(self).report.repositories_created == old(self).report.repositories_created,
            final(self).report.permissions_granted == old(self).report.permissions_granted,
            final(self).report.invited == old(self).report.invited,
            final(self).report.skipped_no_email == old(self).report.skipped_no_email,
            final(self).report.proxy_credentials_needed == old(self).report.proxy_credentials_needed,
            final(self).restored@ == old(self).restored@,
            final(self).created@ == old(self).created@,
    {
        let ghost before = self.report.failed@;
        self.report.failed.push(message);
        assert(self.report.failed@.subrange(0, before.len() as int) =~= before);
    }

    /// Whether an exported user can be inserted: its name as the domain parsed it (or why it
    /// could not), and whether an account already holds the name (the signed-in admin's own).
    pub fn admit_user(parsed: Result<String, String>, taken: bool) -> (r: Result<String, String>)
        ensures
            match parsed {
                Err(why) => r == Err::<String, String>(why),
                Ok(name) => if taken {
                    r matches Err(m) && m@ == USERNAME_TAKEN_BY_ACTOR@
                } else {
                    r == Ok::<String, String>(name)
                },
            },
    {
        match parsed {
            Err(why) => Err(why),
            Ok(name) => if taken {
                Err(String::from_str(USERNAME_TAKEN_BY_ACTOR))
            } else {
                Ok(name)
            },
        }
    }

    /// The settings restored on a repository once created: its quota, then its retention, each
    /// only when the export has one; nothing for a repository that was not created.
    pub fn follow_ups(&self, repository: &ExportedRepository) -> (r: Vec<RepositoryFollowUp>)
        ensures
            match map_lookup(self.created@, repository.id) {
                None => r@.len() == 0,
                Some(new_id) => r@ == (match repository.quota_bytes {
                    Some(q) => seq![RepositoryFollowUp::SetQuota { repository_id: new_id, quota_bytes: q }],
                    None => Seq::empty(),
                }) + (match repository.retention_keep_last_n {
                    Some(n) => seq![RepositoryFollowUp::SetRetention { repository_id: new_id, keep_last_n: n }],
                    None => Seq::empty(),
                }),
            },
    {
        let mut out: Vec<RepositoryFollowUp> = Vec::new();
        let new_id = match lookup_id(&self.created, repository.id) {
            None => {
                return out;
            },
            Some(id) => id,
        };
        if let Some(q) = repository.quota_bytes {
            out.push(RepositoryFollowUp::SetQuota { repository_id: new_id, quota_bytes: q });
        }
        if let Some(n) = repository.retention_keep_last_n {
            out.push(RepositoryFollowUp::SetRetention { repository_id: new_id, keep_last_n: n });
        }
        assert(out@ =~= (match repository.quota_bytes {
            Some(q) => seq![RepositoryFollowUp::SetQuota { repository_id: new_id, quota_bytes: q }],
            None => Seq::empty(),
        }) + (match repository.retention_keep_last_n {
            Some(n) => seq![RepositoryFollowUp::SetRetention { repository_id: new_id, keep_last_n: n }],
            None => Seq::empty(),
        }));
        out
    }

    /// Records how a follow-up ended: nothing on success, else `"repository <name> quota: <why>"`
    /// or `"repository <name> retention: <why>"` listed as failed.
    pub fn record_follow_up(&mut self, repository: &ExportedRepository, f: RepositoryFollowUp, outcome: Result<(), String>)
        ensures
            final(self).restored@ == old(self).restored@,
            final(self).created@ == old(self).created@,
            final(self).report.users_created == old(self).report.users_created,
            final(self).report.repositories_created == old(self).report.repositories_created,
            final(self).report.permissions_granted == old(self).report.permissions_granted,
            final(self).report.invited == old(self).report.invited,
            final(self).report.skipped_no_email == old(self).report.skipped_no_email,
            final(self).report.proxy_credentials_needed == old(self).report.proxy_credentials_needed,
            outcome is Ok ==> final(self).report.failed == old(self).report.failed,
            outcome matches Err(why) ==> pushed_failure(old(self).report.failed@, final(self).report.failed@,
                failure_spec(follow_up_subject(repository.name@, f), why@)),
    {
        if let Err(why) = outcome {
            let mut subject = String::from_str("repository ");
            subject.append(repository.name.as_str());
            match f {
                RepositoryFollowUp::SetQuota { .. } => subject.append(" quota"),
                RepositoryFollowUp::SetRetention { .. } => subject.append(" retention"),
            }
            proof {
                reveal_strlit("repository ");
                reveal_strlit(" quota");
                reveal_strlit(" retention");
            }
            self.record_failure(subject.as_str(), why.as_str());
        }
    }

    /// A created group's new id and how each of its members is re-added; `None` for a
    /// repository that was not created.
    pub fn member_steps(&self, repository: &ExportedRepository) -> (r: Option<(u128, Vec<GroupMemberStep>)>)
        ensures
            match map_lookup(self.created@, repository.id) {
                None => r is None,
                Some(new_id) => r matches Some((g, steps)) && g == new_id && steps@.len() == repository.group_members@.len()
                    && forall|i: int|
                    0 <= i < steps@.len() ==> group_member_step_ok(
                        #[trigger] steps@[i],
                        repository.name@,
                        repository.group_members@[i],
                        i,
                        self.created@,
                    ),
            },
    {
        match lookup_id(&self.created, repository.id) {
            None => None,
            Some(g) => Some((g, ImportConfigurationUseCase::group_member_steps(repository, &self.created))),
        }
    }

    /// Records how re-adding a group member ended: nothing on success, else
    /// `"repository <name> group member: <why>"` listed as failed.
    pub fn record_member_added(&mut self, repository: &ExportedRepository, outcome: Result<(), String>)
        ensures
            final(self).restored@ == old(self).restored@,
            final(self).created@ == old(self).created@,
            final(self).report.users_created == old(self).report.users_created,
            final(self).report.repositories_created == old(self).report.repositories_created,
            final(self).report.permissions_granted == old(self).report.permissions_granted,
            final(self).report.invited == old(self).report.invited,
            final(self).report.skipped_no_email == old(self).report.skipped_no_email,
            final(self).report.proxy_credentials_needed == old(self).report.proxy_credentials_needed,
            outcome is Ok ==> final(self).report.failed == old(self).report.failed,
            outcome matches Err(why) ==> pushed_failure(old(self).report.failed@, final(self).report.failed@,
                failure_spec("repository "@ + repository.name@ + " group member"@, why@)),
    {
        if let Err(why) = outcome {
            let mut subject = String::from_str("repository ");
            subject.append(repository.name.as_str());
            subject.append(" group member");
            proof {
                reveal_strlit("repository ");
                reveal_strlit(" group member");
            }
            self.record_failure(subject.as_str(), why.as_str());
        }
    }

    /// Records how restoring one exported user ended: inserted, it is counted and its id kept
    /// as restored; otherwise `"user <name>: <why>"` is listed as failed.
    pub fn record_user(&mut self, user: &ExportedUser, outcome: Result<(), String>)
        requires
            outcome is Ok ==> old(self).report.users_created < usize::MAX,
        ensures
            user_recorded(*old(self), *final(self), *user, outcome),
    {
        match outcome {
            Ok(()) => {
                broadcast use vstd::std_specs::hash::group_hash_axioms;

                self.restored.insert(user.id);
                self.report.users_created = self.report.users_created + 1;
            },
            Err(why) => {
                let mut subject = String::from_str("user ");
                subject.append(user.username.as_str());
                proof {
                    reveal_strlit("user ");
                }
                self.record_failure(subject.as_str(), why.as_str());
            },
        }
    }

    /// Records how creating one exported repository ended: created under `new_id`, it is
    /// counted, its ids paired, and a proxy without credentials listed; otherwise
    /// `"repository <name>: <why>"` is listed as failed.
    pub fn record_repository(&mut self, repository: &ExportedRepository, outcome: Result<u128, String>)
        requires
            outcome is Ok ==> old(self).report.repositories_created < usize::MAX,
        ensures
            final(self).restored@ == old(self).restored@,
            final(self).report.users_created == old(self).report.users_created,
            final(self).report.permissions_granted == old(self).report.permissions_granted,
            final(self).report.invited == old(self).report.invited,
            final(self).report.skipped_no_email == old(self).report.skipped_no_email,
            final(self).report.proxy_credentials_needed@ == proxies_after(
                old(self).report.proxy_credentials_needed@,
                *repository,
                outcome,
            ),
            outcome matches Ok(new_id) ==> final(self).created@ == old(self).created@.insert(repository.id, new_id)
                && final(self).report.repositories_created == old(self).report.repositories_created + 1
                && final(self).report.failed == old(self).report.failed,
            outcome matches Err(why) ==> final(self).created@ == old(self).created@
                && final(self).report.repositories_created == old(self).report.repositories_created
                && pushed_failure(old(self).report.failed@, final(self).report.failed@,
                    failure_spec("repository "@ + repository.name@, why@)),
    {
        match outcome {
            Ok(new_id) => {
                broadcast use vstd::std_specs::hash::group_hash_axioms;

                self.created.insert(repository.id, new_id);
                self.report.repositories_created = self.report.repositories_created + 1;
                if ImportConfigurationUseCase::needs_proxy_credentials(repository) {
                    self.report.proxy_credentials_needed.push(repository.name.clone());
                }
            },
            Err(why) => {
                let mut subject = String::from_str("repository ");
                subject.append(repository.name.as_str());
                proof {
                    reveal_strlit("repository ");
                }
                self.record_failure(subject.as_str(), why.as_str());
            },
        }
    }

    /// The grant one exported permission leads to, on the restored and created records so
    /// far; when it cannot be granted its failure is listed instead and `None` returned.
    pub fn plan_permission(&mut self, permission: &ExportedPermission) -> (r: Option<(u128, u128, Role)>)
        ensures
            final(self).restored@ == old(self).restored@,
            final(self).created@ == old(self).created@,
            final(self).report.users_created == old(self).report.users_created,
            final(self).report.repositories_created == old(self).report.repositories_created,
            final(self).report.permissions_granted == old(self).report.permissions_granted,
            final(self).report.invited == old(self).report.invited,
            final(self).report.skipped_no_email == old(self).report.skipped_no_email,
            final(self).report.proxy_credentials_needed == old(self).report.proxy_credentials_needed,
            match permission_outcome(*permission, old(self).restored@, old(self).created@) {
                Ok(g) => r == Some(g) && final(self).report.failed == old(self).report.failed,
                Err(m) => r is None && pushed_failure(old(self).report.failed@, final(self).report.failed@, m),
            },
    {
        match ImportConfigurationUseCase::permission_step(permission, &self.restored, &self.created) {
            Ok(g) => Some(g),
            Err(m) => {
                let ghost before = self.report.failed@;
                self.report.failed.push(m);
                assert(self.report.failed@.subrange(0, before.len() as int) =~= before);
                None
            },
        }
    }

    /// Records how granting a planned permission of `user_id` ended: counted when granted,
    /// else `"permission for <user id>: <why>"` listed as failed.
    pub fn record_grant(&mut self, user_id: u128, outcome: Result<(), String>)
        requires
            outcome is Ok ==> old(self).report.permissions_granted < usize::MAX,
        ensures
            final(self).restored@ == old(self).restored@,
            final(self).created@ == old(self).created@,
            final(self).report.users_created == old(self).report.users_created,
            final(self).report.repositories_created == old(self).report.repositories_created,
            final(self).report.invited == old(self).report.invited,
            final(self).report.skipped_no_email == old(self).report.skipped_no_email,
            final(self).report.proxy_credentials_needed == old(self).report.proxy_credentials_needed,
            outcome is Ok ==> final(self).report.permissions_granted == old(self).report.permissions_granted + 1
                && final(self).report.failed == old(self).report.failed,
            outcome matches Err(why) ==> final(self).report.permissions_granted == old(self).report.permissions_granted
                && pushed_failure(old(self).report.failed@, final(self).report.failed@,
                    failure_spec("permission for "@ + uuid_text_spec(user_id), why@)),
    {
        match outcome {
            Ok(()) => {
                self.report.permissions_granted = self.report.permissions_granted + 1;
            },
            Err(why) => {
                let mut subject = String::from_str("permission for ");
                let id_text = uuid_text(user_id);
                subject.append(id_text.as_str());
                proof {
                    reveal_strlit("permission for ");
                }
                self.record_failure(subject.as_str(), why.as_str());
            },
        }
    }

    /// The address to invite an exported user at: none for a user never restored; a restored
    /// user without an address is listed as skipped instead.
    pub fn plan_invitation(&mut self, user: &ExportedUser) -> (r: Option<String>)
        ensures
            final(self).restored@ == old(self).restored@,
            final(self).created@ == old(self).created@,
            final(self).report.users_created == old(self).report.users_created,
            final(self).report.repositories_created == old(self).report.repositories_created,
            final(self).report.permissions_granted == old(self).report.permissions_granted,
            final(self).report.invited == old(self).report.invited,
            final(self).report.failed == old(self).report.failed,
            final(self).report.proxy_credentials_needed == old(self).report.proxy_credentials_needed,
            !old(self).restored@.contains(user.id) ==> r is None
                && final(self).report.skipped_no_email == old(self).report.skipped_no_email,
            old(self).restored@.contains(user.id) && user.email is None ==> r is None
                && final(self).report.skipped_no_email@ == old(self).report.skipped_no_email@.push(user.username),
            old(self).restored@.contains(user.id) && user.email is Some ==> (r matches Some(e) && e@
                == user.email.unwrap()@) && final(self).report.skipped_no_email == old(self).report.skipped_no_email,
    {
        match ImportConfigurationUseCase::invitation_step(user, &self.restored) {
            InvitationStep::NotRestored => None,
            InvitationStep::NoEmail => {
                self.report.skipped_no_email.push(user.username.clone());
                None
            },
            InvitationStep::Invite(e) => Some(e),
        }
    }

    /// Records how inviting a restored user with an address (one `plan_invitation` gave an
    /// address for) ended: listed as invited once the email is sent,
    /// else `"invitation for <name>: <why>"` or `"invitation email for <name>: <why>"` listed
    /// as failed.
    pub fn record_invitation(&mut self, user: &ExportedUser, outcome: InvitationOutcome)
        requires
            old(self).restored@.contains(user.id),
            user.email is Some,
        ensures
            final(self).restored@ == old(self).restored@,
            final(self).created@ == old(self).created@,
            final(self).report.users_created == old(self).report.users_created,
            final(self).report.repositories_created == old(self).report.repositories_created,
            final(self).report.permissions_granted == old(self).report.permissions_granted,
            final(self).report.skipped_no_email == old(self).report.skipped_no_email,
            final(self).report.proxy_credentials_needed == old(self).report.proxy_credentials_needed,
            outcome is Sent ==> final(self).report.invited@ == old(self).report.invited@.push(user.username)
                && final(self).report.failed == old(self).report.failed,
            outcome matches InvitationOutcome::NotStored(why) ==> final(self).report.invited == old(self).report.invited
                && pushed_failure(old(self).report.failed@, final(self).report.failed@,
                    failure_spec("invitation for "@ + user.username@, why@)),
            outcome matches InvitationOutcome::NotSent(why) ==> final(self).report.invited == old(self).report.invited
                && pushed_failure(old(self).report.failed@, final(self).report.failed@,
                    failure_spec("invitation email for "@ + user.username@, why@)),
    {
        match outcome {
            InvitationOutcome::Sent => {
                self.report.invited.push(user.username.clone());
            },
            InvitationOutcome::NotStored(why) => {
                let mut subject = String::from_str("invitation for ");
                subject.append(user.username.as_str());
                proof {
                    reveal_strlit("invitation for ");
                }
                self.record_failure(subject.as_str(), why.as_str());
            },
            InvitationOutcome::NotSent(why) => {
                let mut subject = String::from_str("invitation email for ");
                subject.append(user.username.as_str());
                proof {
                    reveal_strlit("invitation email for ");
                }
                self.record_failure(subject.as_str(), why.as_str());
            },
        }
    }
}

fn copy_outcome(o: &Result<(), String>) -> (r: Result<(), String>)
    ensures
        r == *o,
{
    match o {
        Ok(u) => Ok(*u),
        Err(w) => Err(w.clone()),
    }
}

fn copy_created(o: &Result<u128, String>) -> (r: Result<u128, String>)
    ensures
        r == *o,
{
    match o {
        Ok(id) => Ok(*id),
        Err(w) => Err(w.clone()),
    }
}

impl ImportProgress {
    /// Records the users pass: how restoring each exported user ended, in order. The count of
    /// users created grows by the successful inserts, exactly their ids join the restored set,
    /// and each failure adds one entry to the failures.
    pub fn record_users(&mut self, users: &Vec<ExportedUser>, outcomes: &Vec<Result<(), String>>)
        requires
            outcomes@.len() == users@.len(),
            old(self).report.users_created + users@.len() <= usize::MAX,
        ensures
            final(self).report.users_created == old(self).report.users_created + ok_count(outcomes@),
            final(self).restored@ == old(self).restored@.union(ok_ids(users@, outcomes@)),
            final(self).report.failed@.len() == old(self).report.failed@.len() + users@.len() - ok_count(outcomes@),
            final(self).created@ == old(self).created@,
    {
        let ghost mut states: Seq<ImportProgress> = seq![*self];
        let mut i: usize = 0;
        while i < users.len()
            invariant
                i <= users@.len(),
                outcomes@.len() == users@.len(),
                states.len() == i + 1,
                states[0] == *old(self),
                states[i as int] == *self,
                forall|j: int| 0 <= j < i ==> #[trigger] user_recorded(states[j], states[j + 1], users@[j], outcomes@[j]),
                self.report.users_created <= old(self).report.users_created + i,
                old(self).report.users_created + users@.len() <= usize::MAX,
            decreases users@.len() - i,
        {
            let outcome = copy_outcome(&outcomes[i]);
            let ghost before = *self;
            self.record_user(&users[i], outcome);
            proof {
                let prev = states;
                states = states.push(*self);
                assert forall|j: int| 0 <= j < i + 1 implies #[trigger] user_recorded(
                    states[j],
                    states[j + 1],
                    users@[j],
                    outcomes@[j],
                ) by {
                    if j < i {
                        assert(states[j] == prev[j] && states[j + 1] == prev[j + 1]);
                    } else {
                        assert(states[j] == before);
                    }
                }
            }
            i = i + 1;
        }
        proof {
            lemma_users_accounted(users@, outcomes@, states);
        }
    }

    /// Records the repositories pass: how creating each exported repository ended, in order.
    /// The proxies listed grow by exactly the created ones without credentials, in order.
    pub fn record_repositories(&mut self, repositories: &Vec<ExportedRepository>, outcomes: &Vec<Result<u128, String>>)
        requires
            outcomes@.len() == repositories@.len(),
            old(self).report.repositories_created + repositories@.len() <= usize::MAX,
        ensures
            final(self).report.proxy_credentials_needed@ == old(self).report.proxy_credentials_needed@ + flagged_proxies(
                repositories@,
                outcomes@,
            ),
            final(self).restored@ == old(self).restored@,
            final(self).report.users_created == old(self).report.users_created,
            forall|k: int|
                0 <= k < repositories@.len() && outcomes@[k] is Ok ==> #[trigger] final(self).created@.contains_key(
                    repositories@[k].id,
                ),
    {
        let ghost mut states: Seq<ImportProgress> = seq![*self];
        let mut i: usize = 0;
        while i < repositories.len()
            invariant
                i <= repositories@.len(),
                outcomes@.len() == repositories@.len(),
                states.len() == i + 1,
                states[0] == *old(self),
                states[i as int] == *self,
                forall|j: int|
                    0 <= j < i ==> (#[trigger] states[j + 1]).report.proxy_credentials_needed@ == proxies_after(
                        states[j].report.proxy_credentials_needed@,
                        repositories@[j],
                        outcomes@[j],
                    ),
                self.restored@ == old(self).restored@,
                self.report.users_created == old(self).report.users_created,
                forall|k: int|
                    0 <= k < i && outcomes@[k] is Ok ==> #[trigger] self.created@.contains_key(repositories@[k].id),
                self.report.repositories_created <= old(self).report.repositories_created + i,
                old(self).report.repositories_created + repositories@.len() <= usize::MAX,
            decreases repositories@.len() - i,
        {
            let outcome = copy_created(&outcomes[i]);
            self.record_repository(&repositories[i], outcome);
            proof {
                let prev = states;
                states = states.push(*self);
                assert forall|j: int| 0 <= j < i + 1 implies (#[trigger] states[j + 1]).report.proxy_credentials_needed@
                    == proxies_after(states[j].report.proxy_credentials_needed@, repositories@[j], outcomes@[j]) by {
                    if j < i {
                        assert(states[j] == prev[j] && states[j + 1] == prev[j + 1]);
                    }
                }
            }
            i = i + 1;
        }
        proof {
            lemma_proxies_accounted(repositories@, outcomes@, states);
        }
    }
}

/// How many planned grants succeeded.
pub open spec fn grant_count(grants: Seq<Option<Result<(), String>>>) -> nat
    decreases grants.len(),
{
    if grants.len() == 0 {
        0
    } else {
        grant_count(grants.drop_last()) + if grants.last() matches Some(Ok(_)) {
            1nat
        } else {
            0nat
        }
    }
}

proof fn lemma_grant_count_bound(grants: Seq<Option<Result<(), String>>>)
    ensures
        grant_count(grants) <= grants.len(),
    decreases grants.len(),
{
    if grants.len() > 0 {
        lemma_grant_count_bound(grants.drop_last());
    }
}

fn copy_invitation_outcome(o: &InvitationOutcome) -> (r: InvitationOutcome)
    ensures
        r == *o,
{
    match o {
        InvitationOutcome::Sent => InvitationOutcome::Sent,
        InvitationOutcome::NotStored(w) => InvitationOutcome::NotStored(w.clone()),
        InvitationOutcome::NotSent(w) => InvitationOutcome::NotSent(w.clone()),
    }
}

impl ImportProgress {
    /// Records the permissions pass, in order: a permission whose user was not restored or whose
    /// repository was not created is listed as failed; the others were granted, or not, as
    /// `grants` says (`Some` exactly for those). Only granted ones are counted, so no more than
    /// the permissions given.
    pub fn record_permissions(&mut self, permissions: &Vec<ExportedPermission>, grants: &Vec<Option<Result<(), String>>>)
        requires
            grants@.len() == permissions@.len(),
            forall|k: int|
                0 <= k < permissions@.len() ==> ((#[trigger] grants@[k]) is Some <==> permission_outcome(
                    permissions@[k],
                    old(self).restored@,
                    old(self).created@,
                ) is Ok),
            old(self).report.permissions_granted + permissions@.len() <= usize::MAX,
        ensures
            final(self).report.permissions_granted == old(self).report.permissions_granted + grant_count(grants@),
            final(self).report.permissions_granted <= old(self).report.permissions_granted + permissions@.len(),
            final(self).restored@ == old(self).restored@,
            final(self).created@ == old(self).created@,
            final(self).report.users_created == old(self).report.users_created,
            final(self).report.invited == old(self).report.invited,
            final(self).report.skipped_no_email == old(self).report.skipped_no_email,
    {
        let mut i: usize = 0;
        while i < permissions.len()
            invariant
                i <= permissions@.len(),
                grants@.len() == permissions@.len(),
                forall|k: int|
                    0 <= k < permissions@.len() ==> ((#[trigger] grants@[k]) is Some <==> permission_outcome(
                        permissions@[k],
                        old(self).restored@,
                        old(self).created@,
                    ) is Ok),
                self.restored@ == old(self).restored@,
                self.created@ == old(self).created@,
                self.report.users_created == old(self).report.users_created,
                self.report.invited == old(self).report.invited,
                self.report.skipped_no_email == old(self).report.skipped_no_email,
                self.report.permissions_granted == old(self).report.permissions_granted + grant_count(
                    grants@.subrange(0, i as int),
                ),
                old(self).report.permissions_granted + permissions@.len() <= usize::MAX,
            decreases permissions@.len() - i,
        {
            proof {
                lemma_grant_count_bound(grants@.subrange(0, i as int));
                assert(grants@.subrange(0, i + 1).drop_last() =~= grants@.subrange(0, i as int));
            }
            let planned = self.plan_permission(&permissions[i]);
            match planned {
                Some(g) => match &grants[i] {
                    Some(o) => {
                        let outcome = copy_outcome(o);
                        self.record_grant(g.0, outcome);
                    },
                    None => {},
                },
                None => {},
            }
            i = i + 1;
        }
        proof {
            assert(grants@.subrange(0, permissions@.len() as int) =~= grants@);
            lemma_grant_count_bound(grants@);
        }
    }

    /// Records the invitations pass, in order: a user never restored is passed over, a restored
    /// user without an address is listed as skipped, and how the others' invitations ended is
    /// `outcomes` (`Some` exactly for those). The skipped are exactly the restored users without
    /// an address, in order; whoever is listed as invited is a restored user with an address.
    pub fn record_invitations(&mut self, users: &Vec<ExportedUser>, outcomes: &Vec<Option<InvitationOutcome>>)
        requires
            outcomes@.len() == users@.len(),
        ensures
            final(self).restored@ == old(self).restored@,
            final(self).report.skipped_no_email@ == old(self).report.skipped_no_email@ + no_email_names(
                users@,
                old(self).restored@,
            ),
            old(self).report.invited@.len() <= final(self).report.invited@.len(),
            final(self).report.invited@.subrange(0, old(self).report.invited@.len() as int) == old(self).report.invited@,
            forall|k: int|
                old(self).report.invited@.len() <= k < final(self).report.invited@.len() ==> invited_from(
                    users@,
                    old(self).restored@,
                    #[trigger] final(self).report.invited@[k],
                ),
    {
        let ghost mut states: Seq<ImportProgress> = seq![*self];
        let mut i: usize = 0;
        while i < users.len()
            invariant
                i <= users@.len(),
                outcomes@.len() == users@.len(),
                states.len() == i + 1,
                states[0] == *old(self),
                states[i as int] == *self,
                forall|j: int| 0 <= j < i ==> #[trigger] invitation_handled(states[j], states[j + 1], users@[j]),
            decreases users@.len() - i,
        {
            let ghost before = *self;
            let planned = self.plan_invitation(&users[i]);
            let ghost mid = *self;
            let ghost p = planned;
            if let Some(_) = planned {
                match &outcomes[i] {
                    Some(o) => {
                        let outcome = copy_invitation_outcome(o);
                        self.record_invitation(&users[i], outcome);
                    },
                    None => {},
                }
            }
            proof {
                lemma_invitation_handled(before, mid, *self, users@[i as int], p);
                let prev = states;
                states = states.push(*self);
                assert forall|j: int| 0 <= j < i + 1 implies #[trigger] invitation_handled(
                    states[j],
                    states[j + 1],
                    users@[j],
                ) by {
                    if j < i {
                        assert(states[j] == prev[j] && states[j + 1] == prev[j + 1]);
                    } else {
                        assert(states[j] == before);
                    }
                }
            }
            i = i + 1;
        }
        proof {
            lemma_invitations_accounted(users@, states);
        }
    }
}

} // verus!
