use hangar_application::admin::{
    GetAdminStatsUseCase, RecordMetricsSnapshotUseCase, RepositoryUsage,
    lookup_u64, AdminListApiTokensUseCase, ComponentHealth, ExportConfigurationUseCase, ExportedPermission, ExportedRepository,
    ExportedUser, GetHealthStatusUseCase, GetUsageMetricsUseCase, GroupMemberStep, ImportConfigurationUseCase, ImportReport,
    ImportProgress, InvitationOutcome, RepositoryFollowUp, InvitationStep, SystemSettings, UpdateSystemSettingsUseCase, DELETED_USER_PLACEHOLDER,
    USERNAME_TAKEN_BY_ACTOR,
};
use std::collections::{HashMap, HashSet};

use hangar_application::api_token::ApiToken;
use hangar_application::error::ApplicationError;
use hangar_application::model::{PackageRepositorySummary, RepositoryFormat, RepositoryType, Role, User};

fn settings(a: i64, w: i64, t: i64) -> SystemSettings {
    SystemSettings { max_login_attempts: a, login_attempt_window_seconds: w, session_ttl_hours: t, registration_enabled: false }
}

fn user(id: u128, org: u128, name: &str) -> User {
    User {
        id,
        username: name.into(),
        password_hash: "h".into(),
        is_super_admin: false,
        is_organization_admin: false,
        organization_id: org,
        created_at: 5,
        tokens_valid_after: 5,
        email: Some(format!("{name}@x")),
    }
}

fn repo(id: u128, format: RepositoryFormat) -> PackageRepositorySummary {
    PackageRepositorySummary {
        id,
        organization_id: 1,
        name: format!("r{id}"),
        format,
        repo_type: RepositoryType::Proxy,
        remote_url: Some("https://up".into()),
        remote_username: Some("u".into()),
        remote_password: Some("p".into()),
        group_members: vec![9],
        quota_bytes: Some(10),
        retention_keep_last_n: Some(3),
    }
}

#[test]
fn update_system_settings_rejects_each_out_of_range_value() {
    let use_case = UpdateSystemSettingsUseCase::new();
    assert_eq!(use_case.execute(&settings(5, 60, 1)), Ok(()));
    assert_eq!(
        use_case.execute(&settings(0, 60, 1)),
        Err(ApplicationError::InvalidSystemSettings("max_login_attempts must be between 1 and 1000".into()))
    );
    assert_eq!(
        use_case.execute(&settings(5, 86_401, 1)),
        Err(ApplicationError::InvalidSystemSettings("login_attempt_window_seconds must be between 1 and 86400 (24h)".into()))
    );
    assert_eq!(
        use_case.execute(&settings(5, 60, 721)),
        Err(ApplicationError::InvalidSystemSettings("session_ttl_hours must be between 1 and 720 (30 days)".into()))
    );
}

#[test]
fn storage_health_degrades_unreadable_space_to_zeroes() {
    let h = GetHealthStatusUseCase::storage_health(true, Some((100, 30)));
    assert_eq!((h.status, h.used_bytes, h.free_bytes, h.total_bytes), (ComponentHealth::Up, 70, 30, 100));
    let h = GetHealthStatusUseCase::storage_health(false, None);
    assert_eq!(h.status, ComponentHealth::Down("storage backend unreachable".into()));
    assert_eq!((h.used_bytes, h.free_bytes, h.total_bytes), (0, 0, 0));
    assert_eq!(GetHealthStatusUseCase::storage_health(true, Some((10, 30))).used_bytes, 0);
}

#[test]
fn usage_is_read_per_format_and_missing_usage_counts_as_zero() {
    let usage = GetUsageMetricsUseCase::execute(
        vec![repo(1, RepositoryFormat::Npm), repo(2, RepositoryFormat::Docker), repo(3, RepositoryFormat::Docker)],
        &vec![(1, 40), (2, 99)],
        &vec![(2, 7)],
    );
    let used: Vec<u64> = usage.iter().map(|u| u.used_bytes).collect();
    assert_eq!(used, vec![40, 7, 0]);
    assert_eq!(lookup_u64(&vec![(1, 1), (1, 2)], 1), Some(2));
}

#[test]
fn an_orphaned_token_is_listed_under_a_placeholder() {
    let tokens = vec![
        ApiToken { id: 1, user_id: 10, token_hash: "h".into(), label: "ci".into(), created_at: 1, last_used_at: None, revoked_at: None },
        ApiToken { id: 2, user_id: 11, token_hash: "h".into(), label: "old".into(), created_at: 2, last_used_at: Some(3), revoked_at: None },
    ];
    let entries = AdminListApiTokensUseCase::execute(&tokens, &vec![user(10, 77, "alice")]);
    assert_eq!(entries[0].username, "alice");
    assert_eq!(entries[0].organization_id, Some(77));
    assert_eq!(entries[1].username, DELETED_USER_PLACEHOLDER);
    assert_eq!(entries[1].organization_id, None);
}

#[test]
fn the_export_never_holds_proxy_credentials() {
    let export = ExportConfigurationUseCase::execute(
        &vec![user(1, 1, "a")],
        &vec![repo(5, RepositoryFormat::Npm)],
        &vec![(1, 5, Role::Write)],
        settings(5, 60, 1),
        123,
    );
    assert_eq!(export.exported_at, 123);
    assert_eq!(export.users[0].username, "a");
    assert_eq!(export.repositories[0].remote_url, Some("https://up".to_string()));
    assert_eq!(export.repositories[0].remote_username, None);
    assert_eq!(export.repositories[0].remote_password, None);
    assert_eq!(export.permissions, vec![ExportedPermission { user_id: 1, repository_id: 5, role: Role::Write }]);
}

#[test]
fn import_requires_an_instance_holding_only_the_acting_admin() {
    assert_eq!(ImportConfigurationUseCase::restore_organization(1, &vec![], 1), Err(ApplicationError::InstanceNotEmpty));
    assert_eq!(
        ImportConfigurationUseCase::restore_organization(0, &vec![user(1, 9, "me"), user(2, 9, "other")], 1),
        Err(ApplicationError::InstanceNotEmpty)
    );
    assert_eq!(ImportConfigurationUseCase::restore_organization(0, &vec![], 1), Err(ApplicationError::ActingAdminNotFound));
    assert_eq!(ImportConfigurationUseCase::restore_organization(0, &vec![user(1, 9, "me")], 1), Ok(9));
}

fn exported_repo(id: u128, members: Vec<u128>, repo_type: RepositoryType) -> ExportedRepository {
    ExportedRepository {
        id,
        name: format!("r{id}"),
        format: RepositoryFormat::Npm,
        repo_type,
        remote_url: None,
        remote_username: None,
        remote_password: None,
        group_members: members,
        quota_bytes: None,
        retention_keep_last_n: None,
    }
}

#[test]
fn import_maps_group_members_to_their_new_ids_and_reports_missing_ones() {
    let group = exported_repo(1, vec![2, 3], RepositoryType::Group);
    let created = table(&[(1, 101), (2, 102)]);
    let steps = ImportConfigurationUseCase::group_member_steps(&group, &created);
    assert_eq!(steps[0], GroupMemberStep::Add { member: 102, position: 0 });
    assert_eq!(
        steps[1],
        GroupMemberStep::Missing("repository r1: group member 00000000-0000-0000-0000-000000000003 was never created".into())
    );
    assert!(ImportConfigurationUseCase::needs_proxy_credentials(&exported_repo(4, vec![], RepositoryType::Proxy)));
    assert!(!ImportConfigurationUseCase::needs_proxy_credentials(&exported_repo(4, vec![], RepositoryType::Hosted)));
}

#[test]
fn import_grants_permissions_only_for_restored_users_and_created_repositories() {
    let p = ExportedPermission { user_id: 1, repository_id: 2, role: Role::Read };
    assert_eq!(ImportConfigurationUseCase::permission_step(&p, &ids(&[1]), &table(&[(2, 20)])), Ok((1, 20, Role::Read)));
    assert_eq!(
        ImportConfigurationUseCase::permission_step(&p, &ids(&[]), &table(&[(2, 20)])),
        Err("permission for 00000000-0000-0000-0000-000000000001: user was never restored".to_string())
    );
    assert_eq!(
        ImportConfigurationUseCase::permission_step(&p, &ids(&[1]), &table(&[])),
        Err("permission for 00000000-0000-0000-0000-000000000001: repository 00000000-0000-0000-0000-000000000002 was never created".to_string())
    );
}

#[test]
fn import_invites_restored_users_with_an_address_and_lists_the_others() {
    let u = ExportedUser { id: 1, username: "a".into(), is_super_admin: false, created_at: 0, email: Some("a@x".into()) };
    assert_eq!(ImportConfigurationUseCase::invitation_step(&u, &ids(&[1])), InvitationStep::Invite("a@x".into()));
    assert_eq!(ImportConfigurationUseCase::invitation_step(&u, &ids(&[])), InvitationStep::NotRestored);
    let no_mail = ExportedUser { email: None, ..u };
    assert_eq!(ImportConfigurationUseCase::invitation_step(&no_mail, &ids(&[1])), InvitationStep::NoEmail);
    assert_eq!(ImportConfigurationUseCase::failure("user a", "taken"), "user a: taken");
    let report = ImportReport::default();
    assert_eq!(report.users_created, 0);
    assert!(report.failed.is_empty());
}

#[test]
fn the_dashboard_counts_users_repositories_and_permissions() {
    let stats = GetAdminStatsUseCase::execute(&vec![user(1, 1, "a"), user(2, 1, "b")], &vec![repo(1, RepositoryFormat::Npm)], 4);
    assert_eq!((stats.total_users, stats.total_repositories, stats.total_active_permissions), (2, 1, 4));
}

#[test]
fn a_metrics_snapshot_sums_the_storage_of_every_repository() {
    let usage = |id: u128, used: u64| RepositoryUsage { repository_id: id, name: "r".into(), used_bytes: used, quota_bytes: None };
    let snapshot = RecordMetricsSnapshotUseCase::snapshot(9, 1000, 3, &vec![usage(1, 40), usage(2, 2)]);
    assert_eq!(snapshot.total_users, 3);
    assert_eq!(snapshot.total_repositories, 2);
    assert_eq!(snapshot.total_storage_bytes, 42);
    assert_eq!(snapshot.recorded_at, 1000);
}

fn exported_user(id: u128, name: &str, email: Option<&str>) -> ExportedUser {
    ExportedUser { id, username: name.into(), is_super_admin: false, created_at: 3, email: email.map(|e| e.to_string()) }
}

#[test]
fn import_progress_counts_only_inserted_users_and_lists_the_others_as_failed() {
    let mut p = ImportProgress::new();
    let alice = exported_user(1, "alice", Some("a@x"));
    let bob = exported_user(2, "bob", None);
    let carol = exported_user(3, "carol", Some("c@x"));
    p.record_user(&alice, Ok(()));
    p.record_user(&bob, Ok(()));
    p.record_user(&carol, Err(USERNAME_TAKEN_BY_ACTOR.to_string()));
    assert_eq!(p.report.users_created, 2);
    assert_eq!(p.restored, ids(&[1, 2]));
    assert_eq!(p.report.failed, vec!["user carol: username already taken by the signed-in account".to_string()]);

    assert_eq!(p.plan_invitation(&alice), Some("a@x".to_string()));
    p.record_invitation(&alice, InvitationOutcome::Sent);
    assert_eq!(p.plan_invitation(&bob), None);
    assert_eq!(p.plan_invitation(&carol), None);
    assert_eq!(p.report.invited, vec!["alice".to_string()]);
    assert_eq!(p.report.skipped_no_email, vec!["bob".to_string()]);
    p.record_invitation(&alice, InvitationOutcome::NotSent("smtp down".into()));
    assert_eq!(p.report.failed[1], "invitation email for alice: smtp down");
    p.record_invitation(&alice, InvitationOutcome::NotStored("db down".into()));
    assert_eq!(p.report.failed[2], "invitation for alice: db down");
}

#[test]
fn import_progress_flags_proxies_without_credentials_and_grants_only_restored_permissions() {
    let mut p = ImportProgress::new();
    p.record_user(&exported_user(1, "alice", None), Ok(()));
    let proxy = exported_repo(10, vec![], RepositoryType::Proxy);
    let mut with_creds = exported_repo(11, vec![], RepositoryType::Proxy);
    with_creds.remote_username = Some("u".into());
    let broken = exported_repo(12, vec![], RepositoryType::Hosted);
    p.record_repository(&proxy, Ok(110));
    p.record_repository(&with_creds, Ok(111));
    p.record_repository(&broken, Err("no space".into()));
    assert_eq!(p.report.repositories_created, 2);
    assert_eq!(p.created, table(&[(10, 110), (11, 111)]));
    assert_eq!(p.report.proxy_credentials_needed, vec!["r10".to_string()]);
    assert_eq!(p.report.failed, vec!["repository r12: no space".to_string()]);

    let granted = ExportedPermission { user_id: 1, repository_id: 10, role: Role::Write };
    let orphan = ExportedPermission { user_id: 7, repository_id: 10, role: Role::Read };
    assert_eq!(p.plan_permission(&granted), Some((1, 110, Role::Write)));
    p.record_grant(1, Ok(()));
    assert_eq!(p.plan_permission(&orphan), None);
    assert_eq!(p.report.permissions_granted, 1);
    assert_eq!(p.report.failed.len(), 2);
    assert!(p.report.failed[1].ends_with(": user was never restored"));
    p.record_grant(1, Err("denied".into()));
    assert_eq!(p.report.failed[2], "permission for 00000000-0000-0000-0000-000000000001: denied");
    p.record_failure("system settings", "bad");
    p.record_message("repository r9: group member x was never created".into());
    assert_eq!(p.report.failed[3], "system settings: bad");
    assert_eq!(p.report.failed.len(), 5);
    assert_eq!(p.report.permissions_granted, 1);
}

fn ids(v: &[u128]) -> HashSet<u128> {
    v.iter().copied().collect()
}

fn table(v: &[(u128, u128)]) -> HashMap<u128, u128> {
    v.iter().copied().collect()
}

#[test]
fn a_restored_user_joins_the_actors_organization_and_is_never_an_organization_admin() {
    let mut exported = exported_user(4, "dora", Some("d@x"));
    exported.is_super_admin = true;
    let u = ImportConfigurationUseCase::restored_user(&exported, "dora".into(), "!h".into(), 77);
    assert_eq!(
        u,
        User {
            id: 4,
            username: "dora".into(),
            password_hash: "!h".into(),
            is_super_admin: true,
            is_organization_admin: false,
            organization_id: 77,
            created_at: 3,
            tokens_valid_after: 3,
            email: Some("d@x".into()),
        }
    );
}

#[test]
fn a_created_repository_gets_its_quota_then_its_retention_and_failures_name_them() {
    let mut p = ImportProgress::new();
    let mut repo = exported_repo(10, vec![11, 12], RepositoryType::Group);
    repo.quota_bytes = Some(500);
    repo.retention_keep_last_n = Some(3);
    assert!(p.follow_ups(&repo).is_empty());
    assert_eq!(p.member_steps(&repo), None);
    p.record_repository(&repo, Ok(110));
    p.record_repository(&exported_repo(11, vec![], RepositoryType::Hosted), Ok(111));
    assert_eq!(
        p.follow_ups(&repo),
        vec![
            RepositoryFollowUp::SetQuota { repository_id: 110, quota_bytes: 500 },
            RepositoryFollowUp::SetRetention { repository_id: 110, keep_last_n: 3 },
        ]
    );
    let (group, steps) = p.member_steps(&repo).unwrap();
    assert_eq!(group, 110);
    assert_eq!(steps[0], GroupMemberStep::Add { member: 111, position: 0 });
    assert!(matches!(steps[1], GroupMemberStep::Missing(_)));
    p.record_follow_up(&repo, RepositoryFollowUp::SetQuota { repository_id: 110, quota_bytes: 500 }, Err("db".into()));
    p.record_follow_up(&repo, RepositoryFollowUp::SetRetention { repository_id: 110, keep_last_n: 3 }, Ok(()));
    p.record_member_added(&repo, Err("gone".into()));
    assert_eq!(p.report.failed, vec!["repository r10 quota: db".to_string(), "repository r10 group member: gone".to_string()]);
}

#[test]
fn a_user_whose_name_is_taken_is_not_admitted() {
    assert_eq!(ImportProgress::admit_user(Ok("ann".into()), false), Ok("ann".to_string()));
    assert_eq!(ImportProgress::admit_user(Ok("ann".into()), true), Err(USERNAME_TAKEN_BY_ACTOR.to_string()));
    assert_eq!(ImportProgress::admit_user(Err("bad name".into()), true), Err("bad name".to_string()));
}

#[test]
fn a_whole_import_run_accounts_for_every_user_repository_permission_and_invitation() {
    let mut p = ImportProgress::new();
    let users = vec![exported_user(1, "ann", Some("a@x")), exported_user(2, "bob", None), exported_user(3, "cy", Some("c@x"))];
    p.record_users(&users, &vec![Ok(()), Ok(()), Err("taken".into())]);
    assert_eq!(p.report.users_created, 2);
    assert_eq!(p.restored, ids(&[1, 2]));
    let repos = vec![exported_repo(10, vec![], RepositoryType::Proxy), exported_repo(11, vec![], RepositoryType::Proxy)];
    p.record_repositories(&repos, &vec![Ok(110), Err("x".into())]);
    assert_eq!(p.report.proxy_credentials_needed, vec!["r10".to_string()]);
    let perms = vec![
        ExportedPermission { user_id: 1, repository_id: 10, role: Role::Read },
        ExportedPermission { user_id: 3, repository_id: 10, role: Role::Read },
        ExportedPermission { user_id: 2, repository_id: 10, role: Role::Write },
    ];
    p.record_permissions(&perms, &vec![Some(Ok(())), None, Some(Err("db".into()))]);
    assert_eq!(p.report.permissions_granted, 1);
    p.record_invitations(&users, &vec![Some(InvitationOutcome::Sent), None, None]);
    assert_eq!(p.report.invited, vec!["ann".to_string()]);
    assert_eq!(p.report.skipped_no_email, vec!["bob".to_string()]);
    assert_eq!(
        p.report.failed,
        vec![
            "user cy: taken".to_string(),
            "repository r11: x".to_string(),
            "permission for 00000000-0000-0000-0000-000000000003: user was never restored".to_string(),
            "permission for 00000000-0000-0000-0000-000000000002: db".to_string(),
        ]
    );
}
