//! Who may do what: the scope a Docker access token grants, the checks before a role is
//! granted, before a repository is created, renamed or given a group member, and before an
//! account or an organization is created; and what a scan of an image pulls.

use vstd::prelude::*;

use crate::api_token::ApiToken;
use crate::docker::{digest_valid, is_digest, DockerMediaType, DIGEST_PREFIX};
use crate::error::{ApplicationError, DomainError};
use crate::json::{as_str, as_str_spec, get, get_spec, json_parse_spec, jview, parse_json, Json};
use crate::model::{PackageRepositorySummary, RepositoryFormat, Role, User};
use crate::text::str_eq;

verus! {

/// The scope a Docker client asks a token for (`repository:<name>:<actions>`).
#[derive(Debug, Clone, PartialEq, Eq)]
pub struct DockerScopeRequest {
    pub resource_type: String,
    pub name: String,
    pub actions: Vec<String>,
}

/// The scope a token is issued with.
#[derive(Debug, Clone, PartialEq, Eq)]
pub struct DockerGrantedScope {
    pub resource_type: String,
    pub name: String,
    pub actions: Vec<String>,
    pub granted_repository_id: Option<u128>,
}

/// The role an action needs: reading for `pull`, writing for anything else (an unknown action
/// fails closed to write access).
pub open spec fn required_role_spec(action: Seq<char>) -> Role {
    if action == "pull"@ {
        Role::Read
    } else {
        Role::Write
    }
}

pub fn required_role_for_action(action: &str) -> (r: Role)
    ensures
        r == required_role_spec(action@),
{
    if str_eq(action, "pull") {
        Role::Read
    } else {
        Role::Write
    }
}

/// The role a user acts with on a repository: a super-admin is admin everywhere; an
/// organization admin is admin in the organization's own repositories; anyone else holds the
/// role granted to them (`granted`), if any.
pub open spec fn effective_role_spec(user: User, repository_organization_id: u128, granted: Option<Role>) -> Option<Role> {
    if user.is_super_admin {
        Some(Role::Admin)
    } else if user.is_organization_admin && user.organization_id == repository_organization_id {
        Some(Role::Admin)
    } else {
        granted
    }
}

pub fn effective_role(user: &User, repository_organization_id: u128, granted: Option<Role>) -> (r: Option<Role>)
    ensures
        r == effective_role_spec(*user, repository_organization_id, granted),
{
    if user.is_super_admin {
        Some(Role::Admin)
    } else if user.is_organization_admin && user.organization_id == repository_organization_id {
        Some(Role::Admin)
    } else {
        granted
    }
}

/// Whether a role allows an action.
pub open spec fn allows(role: Option<Role>, action: Seq<char>) -> bool {
    role matches Some(r) && r.rank() >= required_role_spec(action).rank()
}

/// The requested actions the role allows, in the order asked.
pub open spec fn granted_actions(role: Option<Role>, actions: Seq<String>) -> Seq<Seq<char>>
    decreases actions.len(),
{
    if actions.len() == 0 {
        Seq::empty()
    } else {
        let rest = granted_actions(role, actions.drop_last());
        if allows(role, actions.last()@) {
            rest.push(actions.last()@)
        } else {
            rest
        }
    }
}

pub open spec fn strings_view(v: Seq<String>) -> Seq<Seq<char>> {
    v.map_values(|s: String| s@)
}

pub struct IssueDockerAccessTokenUseCase {}

impl IssueDockerAccessTokenUseCase {
    /// The token a client authenticates with (by its hash): it must exist and be active; the
    /// two failures are indistinguishable.
    pub fn active_token(token: Option<ApiToken>) -> (r: Result<ApiToken, ApplicationError>)
        ensures
            match token {
                Some(t) if t.revoked_at is None => r == Ok::<ApiToken, ApplicationError>(t),
                _ => r == Err::<ApiToken, ApplicationError>(ApplicationError::InvalidCredentials),
            },
    {
        match token {
            Some(t) => {
                if t.is_active() {
                    Ok(t)
                } else {
                    Err(ApplicationError::InvalidCredentials)
                }
            },
            None => Err(ApplicationError::InvalidCredentials),
        }
    }

    /// The token's owner, who must still exist.
    pub fn token_owner(user: Option<User>) -> (r: Result<User, ApplicationError>)
        ensures
            match user {
                Some(u) => r == Ok::<User, ApplicationError>(u),
                None => r == Err::<User, ApplicationError>(ApplicationError::InvalidCredentials),
            },
    {
        match user {
            Some(u) => Ok(u),
            None => Err(ApplicationError::InvalidCredentials),
        }
    }

    /// The scope granted for a request: never an error for too little access, as real
    /// registries do, and without telling whether a missing repository exists. With the
    /// repository (`repository`, with the role the user holds on it, `granted`) every requested
    /// action the user's role allows; without it, none.
    pub fn authorize(
        user: &User,
        requested: &DockerScopeRequest,
        repository: Option<(u128, u128)>,
        granted: Option<Role>,
    ) -> (r: DockerGrantedScope)
        ensures
            r.resource_type == requested.resource_type,
            r.name == requested.name,
            match repository {
                None => r.actions@.len() == 0 && r.granted_repository_id is None,
                Some((id, organization_id)) => r.granted_repository_id == Some(id) && strings_view(r.actions@)
                    == granted_actions(effective_role_spec(*user, organization_id, granted), requested.actions@),
            },
    {
        let (actions, granted_repository_id) = match repository {
            None => (Vec::new(), None),
            Some((id, organization_id)) => {
                let role = effective_role(user, organization_id, granted);
                let mut actions: Vec<String> = Vec::new();
                let mut i: usize = 0;
                while i < requested.actions.len()
                    invariant
                        i <= requested.actions@.len(),
                        strings_view(actions@) == granted_actions(role, requested.actions@.subrange(0, i as int)),
                    decreases requested.actions@.len() - i,
                {
                    assert(requested.actions@.subrange(0, i + 1).drop_last() =~= requested.actions@.subrange(0, i as int));
                    let action = &requested.actions[i];
                    let allowed = match role {
                        Some(r) => r.satisfies(required_role_for_action(action.as_str())),
                        None => false,
                    };
                    if allowed {
                        let ghost before = strings_view(actions@);
                        actions.push(action.clone());
                        assert(strings_view(actions@) =~= before.push(action@));
                    }
                    i = i + 1;
                }
                assert(requested.actions@.subrange(0, requested.actions@.len() as int) =~= requested.actions@);
                (actions, Some(id))
            },
        };
        DockerGrantedScope {
            resource_type: requested.resource_type.clone(),
            name: requested.name.clone(),
            actions,
            granted_repository_id,
        }
    }
}

/// What a scan of a tag pulls: the tag itself for an image; for a manifest list, the first
/// member for Linux (with its platform as `os/arch`); members without a platform, an `os`, an
/// architecture or a valid digest are passed over.
pub open spec fn linux_member(members: Seq<Json>) -> Option<(Seq<char>, Seq<char>)>
    decreases members.len(),
{
    if members.len() == 0 {
        None
    } else {
        let m = members[0];
        let platform = get_spec(m, "platform"@);
        let os = match platform {
            Some(p) => as_str_spec(get_spec(p, "os"@)),
            None => None,
        };
        let arch = match platform {
            Some(p) => as_str_spec(get_spec(p, "architecture"@)),
            None => None,
        };
        let digest = as_str_spec(get_spec(m, "digest"@));
        if os == Some("linux"@) && arch is Some && digest is Some && digest_valid(digest.unwrap()) {
            Some((digest.unwrap(), "linux/"@ + arch.unwrap()))
        } else {
            linux_member(members.drop_first())
        }
    }
}

pub open spec fn pick_linux_member_spec(index: Option<Json>) -> Option<(Seq<char>, Seq<char>)> {
    match index {
        Some(doc) => match get_spec(doc, "manifests"@) {
            Some(Json::Array(items)) => linux_member(items@),
            _ => None,
        },
        None => None,
    }
}

/// The Linux member of a manifest list, from its body read as JSON (`None` when it was not
/// JSON).
pub fn pick_linux_member(index: Option<&Json>) -> (r: Option<(String, String)>)
    ensures
        r matches Some(x) ==> pick_linux_member_spec(
            match index {
                Some(j) => Some(*j),
                None => None,
            },
        ) == Some((x.0@, x.1@)),
        r is None ==> pick_linux_member_spec(
            match index {
                Some(j) => Some(*j),
                None => None,
            },
        ) is None,
{
    let doc = match index {
        Some(d) => d,
        None => {
            return None;
        },
    };
    let items = match get(doc, "manifests") {
        Some(Json::Array(items)) => items,
        _ => {
            return None;
        },
    };
    let ghost whole = match index {
        Some(j) => Some(*j),
        None => None,
    };
    assert(whole == Some(*doc));
    assert(get_spec(*doc, "manifests"@) == Some(Json::Array(*items)));
    assert(pick_linux_member_spec(whole) == linux_member(items@));
    let mut i: usize = 0;
    assert(items@.subrange(0, items@.len() as int) =~= items@);
    while i < items.len()
        invariant
            whole == (match index {
                Some(j) => Some(*j),
                None => None,
            }),
            pick_linux_member_spec(whole) == linux_member(items@),
            i <= items@.len(),
            linux_member(items@) == linux_member(items@.subrange(i as int, items@.len() as int)),
        decreases items@.len() - i,
    {
        let ghost rest = items@.subrange(i as int, items@.len() as int);
        assert(rest[0] == items@[i as int]);
        assert(rest.drop_first() =~= items@.subrange(i + 1, items@.len() as int));
        let m = &items[i];
        let platform = get(m, "platform");
        let os = match platform {
            Some(p) => as_str(get(p, "os")),
            None => None,
        };
        let arch = match platform {
            Some(p) => as_str(get(p, "architecture")),
            None => None,
        };
        let digest = as_str(get(m, "digest"));
        match (os, arch, digest) {
            (Some(o), Some(a), Some(d)) => {
                if str_eq(o.as_str(), "linux") && is_digest(d.as_str()) {
                    let mut platform_text = String::from_str("linux/");
                    platform_text.append(a.as_str());
                    proof {
                        let sp = get_spec(items@[i as int], "platform"@);
                        assert(sp is Some);
                        assert(as_str_spec(get_spec(sp.unwrap(), "os"@)) == Some(o@));
                        assert(as_str_spec(get_spec(sp.unwrap(), "architecture"@)) == Some(a@));
                        assert(linux_member(rest) == Some((d@, platform_text@)));
                        assert(pick_linux_member_spec(whole) == Some((d@, platform_text@)));
                    }
                    let digest_text = d.clone();
                    assert(digest_text@ == d@);
                    return Some((digest_text, platform_text));
                }
            },
            _ => {},
        }
        i = i + 1;
    }
    None
}

/// What scanning a manifest list whose body reads as `index` targets: its Linux member (digest
/// and platform), or not found.
pub open spec fn linux_target(index: Json, r: Result<(String, Option<String>), ApplicationError>) -> bool {
    match pick_linux_member_spec(Some(index)) {
        Some((d, p)) => r matches Ok((reference, Some(platform))) && reference@ == d && platform@ == p,
        None => r == Err::<(String, Option<String>), ApplicationError>(ApplicationError::DockerManifestNotFound),
    }
}

/// Scanning an image: what the scanner pulls, under which scope.
pub struct ScanDockerImageUseCase {}

impl ScanDockerImageUseCase {
    /// The reference to scan and its platform: the tag for an image; for a manifest list, which
    /// has nothing of its own to scan, the Linux member found in its stored body (`body`, read as
    /// JSON; a body that is not JSON, or has no such member: not found).
    pub fn scan_target(media_type: DockerMediaType, body: &[u8], tag: &str) -> (r: Result<
        (String, Option<String>),
        ApplicationError,
    >)
        ensures
            !media_type.is_index_spec() ==> (r matches Ok((reference, platform)) && reference@ == tag@ && platform is None),
            media_type.is_index_spec() ==> match json_parse_spec(body@) {
                None => r == Err::<(String, Option<String>), ApplicationError>(ApplicationError::DockerManifestNotFound),
                Some(v) => exists|index: Json| #[trigger] jview(index) == v && linux_target(index, r),
            },
    {
        if media_type.is_index() {
            let index = match parse_json(body) {
                Ok(j) => j,
                Err(_) => {
                    return Err(ApplicationError::DockerManifestNotFound);
                },
            };
            let r = match pick_linux_member(Some(&index)) {
                Some((digest, platform)) => Ok((digest, Some(platform))),
                None => Err(ApplicationError::DockerManifestNotFound),
            };
            assert(linux_target(index, r));
            r
        } else {
            Ok((String::from_str(tag), None))
        }
    }

    /// The scope of the scanner's own pull: `pull` on `<repository>/<image>`, in that repository.
    pub fn pull_scope(repository_id: u128, repository_name: &str, image_name: &str) -> (r: DockerGrantedScope)
        ensures
            r.resource_type@ == "repository"@,
            r.name@ == repository_name@ + "/"@ + image_name@,
            strings_view(r.actions@) == seq!["pull"@],
            r.granted_repository_id == Some(repository_id),
    {
        let mut name = String::from_str(repository_name);
        name.append("/");
        name.append(image_name);
        let actions: Vec<String> = vec![String::from_str("pull")];
        assert(strings_view(actions@) =~= seq!["pull"@]);
        DockerGrantedScope {
            resource_type: String::from_str("repository"),
            name,
            actions,
            granted_repository_id: Some(repository_id),
        }
    }
}

pub struct GrantPermissionUseCase {}

impl GrantPermissionUseCase {
    /// A role on a repository is only granted within the repository's organization, whatever
    /// the route checked before; a super-admin grantee works across organizations. When the
    /// repository or the grantee is unknown this check passes (`repository_organization_id`,
    /// `grantee` are what the stores hold).
    pub fn check_organization(user_id: u128, repository_organization_id: Option<u128>, grantee: Option<&User>) -> (r: Result<
        (),
        ApplicationError,
    >)
        ensures
            match (repository_organization_id, grantee) {
                (Some(org), Some(g)) if !g.is_super_admin && g.organization_id != org => r
                    == Err::<(), ApplicationError>(
                    ApplicationError::Domain(DomainError::GranteeOrganizationMismatch(user_id)),
                ),
                _ => r is Ok,
            },
    {
        match (repository_organization_id, grantee) {
            (Some(org), Some(g)) => {
                if !g.is_super_admin && g.organization_id != org {
                    Err(ApplicationError::Domain(DomainError::GranteeOrganizationMismatch(user_id)))
                } else {
                    Ok(())
                }
            },
            _ => Ok(()),
        }
    }
}

pub struct CreatePackageRepositoryUseCase {}

impl CreatePackageRepositoryUseCase {
    /// A name is taken once per organization.
    pub fn check_name_free(existing: Option<u128>) -> (r: Result<(), ApplicationError>)
        ensures
            existing is Some ==> r == Err::<(), ApplicationError>(ApplicationError::RepositoryNameTaken),
            existing is None ==> r is Ok,
    {
        match existing {
            Some(_) => Err(ApplicationError::RepositoryNameTaken),
            None => Ok(()),
        }
    }
}

pub struct RenamePackageRepositoryUseCase {}

impl RenamePackageRepositoryUseCase {
    /// The new name must be free in the repository's organization; renaming a repository to
    /// its own name is no conflict. `holder` is the repository that has the name, if any.
    pub fn check_name_free(repository_id: u128, holder: Option<u128>) -> (r: Result<(), ApplicationError>)
        ensures
            (holder matches Some(h) && h != repository_id) ==> r == Err::<(), ApplicationError>(
                ApplicationError::RepositoryNameTaken,
            ),
            !(holder matches Some(h) && h != repository_id) ==> r is Ok,
    {
        match holder {
            Some(h) => {
                if h != repository_id {
                    Err(ApplicationError::RepositoryNameTaken)
                } else {
                    Ok(())
                }
            },
            None => Ok(()),
        }
    }
}

pub struct AddGroupMemberUseCase {}

impl AddGroupMemberUseCase {
    /// The checks before a repository joins a group, in order: not the group itself (only
    /// direct self-membership is refused), an existing repository, of the group's organization
    /// (when the group is known), and of the group's format (when the group has one).
    pub fn check(
        repository_id: u128,
        member_repository_id: u128,
        member: Option<&PackageRepositorySummary>,
        group_organization_id: Option<u128>,
        group_format: Option<RepositoryFormat>,
    ) -> (r: Result<(), ApplicationError>)
        ensures
            member_repository_id == repository_id ==> r == Err::<(), ApplicationError>(
                ApplicationError::Domain(DomainError::SelfGroupMembership),
            ),
            member_repository_id != repository_id && member is None ==> r == Err::<(), ApplicationError>(
                ApplicationError::Domain(DomainError::UnknownGroupMember(member_repository_id)),
            ),
            member_repository_id != repository_id && member is Some ==> {
                let m = member.unwrap();
                if group_organization_id matches Some(o) && o != m.organization_id {
                    r == Err::<(), ApplicationError>(
                        ApplicationError::Domain(DomainError::GroupMemberOrganizationMismatch(member_repository_id)),
                    )
                } else if group_format matches Some(f) && f != m.format {
                    r == Err::<(), ApplicationError>(
                        ApplicationError::Domain(DomainError::GroupMemberFormatMismatch(member_repository_id)),
                    )
                } else {
                    r is Ok
                }
            },
    {
        if member_repository_id == repository_id {
            return Err(ApplicationError::Domain(DomainError::SelfGroupMembership));
        }
        let m = match member {
            Some(m) => m,
            None => {
                return Err(ApplicationError::Domain(DomainError::UnknownGroupMember(member_repository_id)));
            },
        };
        match group_organization_id {
            Some(o) => {
                if o != m.organization_id {
                    return Err(ApplicationError::Domain(DomainError::GroupMemberOrganizationMismatch(member_repository_id)));
                }
            },
            None => {},
        }
        match group_format {
            Some(f) => {
                if f != m.format {
                    return Err(ApplicationError::Domain(DomainError::GroupMemberFormatMismatch(member_repository_id)));
                }
            },
            None => {},
        }
        Ok(())
    }
}

pub struct RegisterPublicUserUseCase {}

impl RegisterPublicUserUseCase {
    /// A username is taken once.
    pub fn check_username_free(taken: bool) -> (r: Result<(), ApplicationError>)
        ensures
            taken ==> r == Err::<(), ApplicationError>(ApplicationError::UsernameTaken),
            !taken ==> r is Ok,
    {
        if taken {
            Err(ApplicationError::UsernameTaken)
        } else {
            Ok(())
        }
    }
}

pub struct CreateOrganizationUseCase {}

impl CreateOrganizationUseCase {
    /// An organization's slug is taken once.
    pub fn check_slug_free(taken: bool) -> (r: Result<(), ApplicationError>)
        ensures
            taken ==> r == Err::<(), ApplicationError>(ApplicationError::OrganizationSlugTaken),
            !taken ==> r is Ok,
    {
        if taken {
            Err(ApplicationError::OrganizationSlugTaken)
        } else {
            Ok(())
        }
    }
}

/// A stand-in for a remote registry in tests: it serves one manifest (an empty JSON object as a
/// Docker v2 manifest unless changed) and the same blob bytes for every digest.
#[derive(Debug, Clone, PartialEq, Eq)]
pub struct FakeRemoteDockerRegistry {
    pub manifest_response: Option<(Vec<u8>, String)>,
}

impl FakeRemoteDockerRegistry {
    pub fn new() -> (r: Self)
        ensures
            r.manifest_response matches Some((body, content_type)) && body@ == seq![123u8, 125u8]
                && content_type@ == crate::docker::DOCKER_V2_MANIFEST@,
    {
        let body: Vec<u8> = vec![123u8, 125u8];
        FakeRemoteDockerRegistry {
            manifest_response: Some((body, String::from_str(crate::docker::DOCKER_V2_MANIFEST))),
        }
    }

    /// The manifest it serves, whatever is asked.
    pub fn fetch_manifest(&self) -> (r: Option<(Vec<u8>, String)>)
        ensures
            match (r, self.manifest_response) {
                (Some((b, t)), Some((b0, t0))) => b@ == b0@ && t@ == t0@,
                (None, None) => true,
                _ => false,
            },
    {
        match &self.manifest_response {
            Some((b, t)) => {
                let mut copy: Vec<u8> = Vec::new();
                let mut i: usize = 0;
                while i < b.len()
                    invariant
                        i <= b@.len(),
                        copy@ == b@.subrange(0, i as int),
                    decreases b@.len() - i,
                {
                    copy.push(b[i]);
                    i = i + 1;
                }
                assert(b@.subrange(0, b@.len() as int) =~= b@);
                Some((copy, t.clone()))
            },
            None => None,
        }
    }

    /// The blob it serves for every digest.
    pub fn fetch_blob(&self) -> (r: Option<Vec<u8>>)
        ensures
            r matches Some(b) && b@ == "fake-blob-bytes"@.map_values(|c: char| c as u8),
    {
        let b: Vec<u8> = vec![102u8, 97u8, 107u8, 101u8, 45u8, 98u8, 108u8, 111u8, 98u8, 45u8, 98u8, 121u8, 116u8, 101u8, 115u8];
        proof {
            reveal_strlit("fake-blob-bytes");
            assert(b@ =~= "fake-blob-bytes"@.map_values(|c: char| c as u8));
        }
        Some(b)
    }
}

} // verus!
