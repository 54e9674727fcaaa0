use hangar_application::api_token::ApiToken;
use hangar_application::access::{
    effective_role, pick_linux_member, required_role_for_action, AddGroupMemberUseCase, CreateOrganizationUseCase,
    CreatePackageRepositoryUseCase, DockerScopeRequest, GrantPermissionUseCase, IssueDockerAccessTokenUseCase,
    RegisterPublicUserUseCase, RenamePackageRepositoryUseCase, ScanDockerImageUseCase,
};
use hangar_application::docker::{digest_of, DockerMediaType};
use hangar_application::error::{ApplicationError, DomainError};
use hangar_application::json::Json;
use hangar_application::model::{PackageRepositorySummary, RepositoryFormat, RepositoryType, Role, User};

fn user(org: u128, super_admin: bool, org_admin: bool) -> User {
    User {
        id: 5,
        username: "u".into(),
        password_hash: "h".into(),
        is_super_admin: super_admin,
        is_organization_admin: org_admin,
        organization_id: org,
        created_at: 0,
        tokens_valid_after: 0,
        email: None,
    }
}

fn request(actions: &[&str]) -> DockerScopeRequest {
    DockerScopeRequest { resource_type: "repository".into(), name: "main/web".into(), actions: actions.iter().map(|a| a.to_string()).collect() }
}

#[test]
fn pull_needs_read_and_anything_else_needs_write() {
    assert_eq!(required_role_for_action("pull"), Role::Read);
    assert_eq!(required_role_for_action("push"), Role::Write);
    assert_eq!(required_role_for_action("delete"), Role::Write);
    assert!(Role::Admin.satisfies(Role::Write));
    assert!(!Role::Read.satisfies(Role::Write));
}

#[test]
fn a_reader_is_granted_pull_only() {
    let scope = IssueDockerAccessTokenUseCase::authorize(&user(1, false, false), &request(&["pull", "push"]), Some((9, 1)), Some(Role::Read));
    assert_eq!(scope.actions, vec!["pull".to_string()]);
    assert_eq!(scope.granted_repository_id, Some(9));
    assert_eq!(scope.name, "main/web");
}

#[test]
fn a_missing_repository_grants_nothing_without_an_error() {
    let scope = IssueDockerAccessTokenUseCase::authorize(&user(1, true, false), &request(&["pull"]), None, None);
    assert!(scope.actions.is_empty());
    assert_eq!(scope.granted_repository_id, None);
}

#[test]
fn admins_act_as_admin_where_they_govern() {
    assert_eq!(effective_role(&user(1, true, false), 2, None), Some(Role::Admin));
    assert_eq!(effective_role(&user(1, false, true), 1, None), Some(Role::Admin));
    assert_eq!(effective_role(&user(1, false, true), 2, Some(Role::Read)), Some(Role::Read));
    let scope = IssueDockerAccessTokenUseCase::authorize(&user(1, false, true), &request(&["pull", "push", "*"]), Some((9, 1)), None);
    assert_eq!(scope.actions.len(), 3);
}

#[test]
fn a_scan_of_an_index_pulls_its_first_linux_member() {
    let linux = digest_of(b"linux");
    let member = |os: &str, arch: &str, digest: &str| {
        Json::Object(vec![
            ("digest".into(), Json::Str(digest.into())),
            ("platform".into(), Json::Object(vec![("os".into(), Json::Str(os.into())), ("architecture".into(), Json::Str(arch.into()))])),
        ])
    };
    let attestation = Json::Object(vec![("digest".into(), Json::Str(digest_of(b"att")))]);
    let index = Json::Object(vec![(
        "manifests".into(),
        Json::Array(vec![attestation, member("windows", "amd64", &digest_of(b"w")), member("linux", "arm64", &linux)]),
    )]);
    assert_eq!(pick_linux_member(Some(&index)), Some((linux.clone(), "linux/arm64".to_string())));
    let body = format!(
        "{{\"manifests\":[{{\"digest\":\"{}\"}},{{\"digest\":\"{}\",\"platform\":{{\"os\":\"windows\",\"architecture\":\"amd64\"}}}},{{\"digest\":\"{linux}\",\"platform\":{{\"os\":\"linux\",\"architecture\":\"arm64\"}}}}]}}",
        digest_of(b"att"),
        digest_of(b"w"),
    );
    assert_eq!(
        ScanDockerImageUseCase::scan_target(DockerMediaType::OciIndex, body.as_bytes(), "latest"),
        Ok((linux, Some("linux/arm64".to_string())))
    );
    assert_eq!(ScanDockerImageUseCase::scan_target(DockerMediaType::DockerV2Manifest, b"", "v1"), Ok(("v1".to_string(), None)));
    assert_eq!(ScanDockerImageUseCase::scan_target(DockerMediaType::OciIndex, b"not json", "v1"), Err(ApplicationError::DockerManifestNotFound));
    let scope = ScanDockerImageUseCase::pull_scope(3, "main", "web");
    assert_eq!((scope.name.as_str(), scope.actions.clone()), ("main/web", vec!["pull".to_string()]));
}

#[test]
fn a_role_is_never_granted_across_organizations_except_to_a_super_admin() {
    let u = user(2, false, false);
    assert_eq!(
        GrantPermissionUseCase::check_organization(5, Some(1), Some(&u)),
        Err(ApplicationError::Domain(DomainError::GranteeOrganizationMismatch(5)))
    );
    assert_eq!(GrantPermissionUseCase::check_organization(5, Some(1), Some(&user(2, true, false))), Ok(()));
    assert_eq!(GrantPermissionUseCase::check_organization(5, None, Some(&u)), Ok(()));
}

fn summary(id: u128, org: u128, format: RepositoryFormat) -> PackageRepositorySummary {
    PackageRepositorySummary {
        id,
        organization_id: org,
        name: "m".into(),
        format,
        repo_type: RepositoryType::Hosted,
        remote_url: None,
        remote_username: None,
        remote_password: None,
        group_members: vec![],
        quota_bytes: None,
        retention_keep_last_n: None,
    }
}

#[test]
fn group_membership_checks_run_in_order() {
    let m = summary(2, 1, RepositoryFormat::Npm);
    assert_eq!(AddGroupMemberUseCase::check(1, 1, Some(&m), Some(1), None), Err(ApplicationError::Domain(DomainError::SelfGroupMembership)));
    assert_eq!(AddGroupMemberUseCase::check(1, 2, None, Some(1), None), Err(ApplicationError::Domain(DomainError::UnknownGroupMember(2))));
    assert_eq!(
        AddGroupMemberUseCase::check(1, 2, Some(&m), Some(9), Some(RepositoryFormat::Docker)),
        Err(ApplicationError::Domain(DomainError::GroupMemberOrganizationMismatch(2)))
    );
    assert_eq!(
        AddGroupMemberUseCase::check(1, 2, Some(&m), Some(1), Some(RepositoryFormat::Docker)),
        Err(ApplicationError::Domain(DomainError::GroupMemberFormatMismatch(2)))
    );
    assert_eq!(AddGroupMemberUseCase::check(1, 2, Some(&m), None, Some(RepositoryFormat::Npm)), Ok(()));
}

#[test]
fn names_slugs_and_usernames_are_taken_once() {
    assert_eq!(CreatePackageRepositoryUseCase::check_name_free(Some(3)), Err(ApplicationError::RepositoryNameTaken));
    assert_eq!(CreatePackageRepositoryUseCase::check_name_free(None), Ok(()));
    assert_eq!(RenamePackageRepositoryUseCase::check_name_free(3, Some(3)), Ok(()));
    assert_eq!(RenamePackageRepositoryUseCase::check_name_free(3, Some(4)), Err(ApplicationError::RepositoryNameTaken));
    assert_eq!(RegisterPublicUserUseCase::check_username_free(true), Err(ApplicationError::UsernameTaken));
    assert_eq!(CreateOrganizationUseCase::check_slug_free(true), Err(ApplicationError::OrganizationSlugTaken));
    assert_eq!(CreateOrganizationUseCase::check_slug_free(false), Ok(()));
}

#[test]
fn a_revoked_or_unknown_token_or_a_deleted_owner_are_invalid_credentials() {
    let token = ApiToken { id: 1, user_id: 2, token_hash: "h".into(), label: "l".into(), created_at: 0, last_used_at: None, revoked_at: None };
    assert_eq!(IssueDockerAccessTokenUseCase::active_token(Some(token.clone())), Ok(token.clone()));
    let revoked = ApiToken { revoked_at: Some(5), ..token };
    assert_eq!(IssueDockerAccessTokenUseCase::active_token(Some(revoked)), Err(ApplicationError::InvalidCredentials));
    assert_eq!(IssueDockerAccessTokenUseCase::active_token(None), Err(ApplicationError::InvalidCredentials));
    assert_eq!(IssueDockerAccessTokenUseCase::token_owner(None), Err(ApplicationError::InvalidCredentials));
}
