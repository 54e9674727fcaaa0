use hangar_application::group_resolve::{resolution_steps, ResolveStep};
use hangar_application::model::{PackageRepositorySummary, RepositoryFormat, RepositoryType};

fn repo(id: u128, repo_type: RepositoryType, members: Vec<u128>) -> PackageRepositorySummary {
    PackageRepositorySummary {
        id,
        organization_id: 1,
        name: format!("r{id}"),
        format: RepositoryFormat::Npm,
        repo_type,
        remote_url: None,
        remote_username: None,
        remote_password: None,
        group_members: members,
        quota_bytes: None,
        retention_keep_last_n: None,
    }
}

fn ids(table: &[PackageRepositorySummary], steps: &[ResolveStep]) -> Vec<String> {
    steps
        .iter()
        .map(|s| match s {
            ResolveStep::Hosted(i) => format!("hosted:{}", table[*i].id),
            ResolveStep::Proxy(i) => format!("proxy:{}", table[*i].id),
            ResolveStep::NotFound => "not-found".to_string(),
        })
        .collect()
}

#[test]
fn group_with_one_hosted_member_resolves_to_that_repository() {
    let table = vec![repo(10, RepositoryType::Group, vec![11]), repo(11, RepositoryType::Hosted, vec![])];
    let steps = resolution_steps(&table, 10);
    assert_eq!(ids(&table, &steps), vec!["hosted:11"]);
}

#[test]
fn a_proxy_member_listed_before_a_hosted_member_never_shadows_it() {
    let table = vec![
        repo(10, RepositoryType::Group, vec![12, 11]),
        repo(11, RepositoryType::Hosted, vec![]),
        repo(12, RepositoryType::Proxy, vec![]),
    ];
    let steps = resolution_steps(&table, 10);
    assert_eq!(ids(&table, &steps), vec!["hosted:11", "proxy:12"]);
}

#[test]
fn group_with_a_nested_group_resolves_two_levels_deep() {
    let table = vec![
        repo(1, RepositoryType::Group, vec![2]),
        repo(2, RepositoryType::Group, vec![3]),
        repo(3, RepositoryType::Hosted, vec![]),
    ];
    assert_eq!(ids(&table, &resolution_steps(&table, 1)), vec!["hosted:3"]);
}

#[test]
fn group_that_contains_itself_is_caught_by_the_cycle_guard() {
    let table = vec![repo(1, RepositoryType::Group, vec![1])];
    assert!(resolution_steps(&table, 1).is_empty());
}

#[test]
fn two_groups_referencing_each_other_are_caught_by_the_cycle_guard() {
    let table = vec![repo(1, RepositoryType::Group, vec![2]), repo(2, RepositoryType::Group, vec![1])];
    assert!(resolution_steps(&table, 1).is_empty());
}

#[test]
fn empty_group_resolves_to_none_rather_than_an_error() {
    let table = vec![repo(1, RepositoryType::Group, vec![])];
    assert!(resolution_steps(&table, 1).is_empty());
}

#[test]
fn missing_repository_surfaces_the_not_found_error() {
    let table = vec![repo(1, RepositoryType::Hosted, vec![])];
    assert_eq!(resolution_steps(&table, 99), vec![ResolveStep::NotFound]);
}

#[test]
fn a_missing_member_fails_the_group_before_any_member_is_tried() {
    let table = vec![repo(1, RepositoryType::Group, vec![2, 7]), repo(2, RepositoryType::Hosted, vec![])];
    assert_eq!(resolution_steps(&table, 1), vec![ResolveStep::NotFound]);
}

#[test]
fn a_hosted_or_proxy_repository_is_tried_directly() {
    let table = vec![repo(5, RepositoryType::Proxy, vec![]), repo(6, RepositoryType::Hosted, vec![])];
    assert_eq!(resolution_steps(&table, 5), vec![ResolveStep::Proxy(0)]);
    assert_eq!(resolution_steps(&table, 6), vec![ResolveStep::Hosted(1)]);
}

#[test]
fn sibling_groups_may_each_reach_a_shared_member() {
    let table = vec![
        repo(1, RepositoryType::Group, vec![2, 3]),
        repo(2, RepositoryType::Group, vec![4]),
        repo(3, RepositoryType::Group, vec![4]),
        repo(4, RepositoryType::Hosted, vec![]),
    ];
    assert_eq!(ids(&table, &resolution_steps(&table, 1)), vec!["hosted:4", "hosted:4"]);
}
