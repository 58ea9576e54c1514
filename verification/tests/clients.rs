use oghcollector::collector::clients::{
    bearer, first_page, github_org_repos_path, gitlab_base_url, gitlab_is_listed,
    gitlab_org_repos_path, gitlab_owner, next_page, GITHUB_LIMIT_PAGES, GITHUB_LIMIT_PER_PAGE,
    GITLAB_BASE_URL, GITLAB_LIMIT_PER_PAGE,
};
use oghcollector::collector::gitclient::RepoInfo;

#[test]
fn github_path_lists_a_page_of_an_organization() {
    assert_eq!(
        github_org_repos_path("OCA", &GITHUB_LIMIT_PER_PAGE, &1),
        "orgs/OCA/repos?sort=updated&per_page=50&page=1"
    );
    assert_eq!(
        github_org_repos_path("acme", &10, &254),
        "orgs/acme/repos?sort=updated&per_page=10&page=254"
    );
}

#[test]
fn gitlab_path_encodes_the_group() {
    assert_eq!(
        gitlab_org_repos_path("my group/x", &GITLAB_LIMIT_PER_PAGE, &2),
        "groups/my%20group%2Fx/projects?sort=updated_desc&per_page=100&page=2&simple=true"
    );
    assert_eq!(
        gitlab_org_repos_path("caf\u{e9}-~_.", &1, &1),
        "groups/caf%C3%A9-~_./projects?sort=updated_desc&per_page=1&page=1&simple=true"
    );
    assert_eq!(
        gitlab_org_repos_path("plain", &1, &1),
        "groups/plain/projects?sort=updated_desc&per_page=1&page=1&simple=true"
    );
}

#[test]
fn gitlab_address_has_a_default() {
    assert_eq!(gitlab_base_url(""), GITLAB_BASE_URL);
    assert_eq!(gitlab_base_url("https://git.example/api/v4/"), "https://git.example/api/v4/");
}

#[test]
fn token_is_sent_as_bearer() {
    assert_eq!(bearer("abc"), "Bearer abc");
    assert_eq!(bearer(""), "Bearer ");
}

#[test]
fn gitlab_owner_is_the_first_part_of_the_path() {
    assert_eq!(gitlab_owner("grp/sub/proj"), "grp");
    assert_eq!(gitlab_owner("solo"), "solo");
    assert_eq!(gitlab_owner(""), "");
    assert_eq!(gitlab_owner("/x"), "");
}

#[test]
fn gitlab_project_needs_name_and_address() {
    assert!(gitlab_is_listed("web", "https://gitlab.com/g/web.git"));
    assert!(!gitlab_is_listed("", "https://gitlab.com/g/web.git"));
    assert!(!gitlab_is_listed("web", ""));
}

#[test]
fn paging_stops_on_a_short_page_or_at_the_limit() {
    assert_eq!(first_page(GITHUB_LIMIT_PAGES), Some(1));
    assert_eq!(first_page(1), None);
    assert_eq!(first_page(0), None);
    assert_eq!(next_page(1, 50, 50, 255), Some(2));
    assert_eq!(next_page(1, 49, 50, 255), None);
    assert_eq!(next_page(1, 0, 50, 255), None);
    assert_eq!(next_page(1, 60, 50, 255), Some(2));
    assert_eq!(next_page(253, 50, 50, 255), Some(254));
    assert_eq!(next_page(254, 50, 50, 255), None);
}

#[test]
fn clone_lies_under_organization_and_name() {
    let r = RepoInfo::cloned("OCA", "web", "/data/repos");
    assert_eq!(r.get_name(), "web");
    assert_eq!(r.get_org(), "OCA");
    assert_eq!(r.get_clone_path(), "/data/repos/OCA/web");
}
