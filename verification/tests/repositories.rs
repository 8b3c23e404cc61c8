use self_reposcope::fetch_gh_api::{
    eligible_positions, is_eligible, languages_url, Owner, PageStep, Repo, RepoPages, User,
    USER_AGENT, USER_URL,
};

fn repo(name: &str, login: &str, owner_type: &str, fork: bool) -> Repo {
    Repo {
        name: name.to_string(),
        private: false,
        fork,
        language: None,
        owner: Owner { login: login.to_string(), owner_type: owner_type.to_string() },
    }
}

#[test]
fn an_own_repository_that_is_no_fork_counts() {
    let account = "octo".to_string();
    assert!(is_eligible(&repo("a", "octo", "User", false), &account));
}

#[test]
fn a_fork_does_not_count() {
    let account = "octo".to_string();
    assert!(!is_eligible(&repo("a", "octo", "User", true), &account));
}

#[test]
fn a_repository_of_an_organization_does_not_count() {
    let account = "octo".to_string();
    assert!(!is_eligible(&repo("a", "octo", "Organization", false), &account));
    assert!(!is_eligible(&repo("a", "acme", "Organization", false), &account));
}

#[test]
fn a_repository_of_another_account_does_not_count() {
    let account = "octo".to_string();
    assert!(!is_eligible(&repo("a", "cat", "User", false), &account));
    assert!(!is_eligible(&repo("a", "Octo", "User", false), &account));
    assert!(!is_eligible(&repo("a", "", "User", false), &account));
}

#[test]
fn privacy_and_primary_language_do_not_matter() {
    let account = "octo".to_string();
    let mut own = repo("a", "octo", "User", false);
    own.private = true;
    own.language = Some("Rust".to_string());
    assert!(is_eligible(&own, &account));
}

#[test]
fn eligible_positions_are_those_that_count_in_rising_order() {
    let account = User { login: "octo".to_string() };
    let repos = vec![
        repo("a", "octo", "User", true),
        repo("b", "octo", "User", false),
        repo("c", "acme", "Organization", false),
        repo("d", "cat", "User", false),
        repo("e", "octo", "User", false),
    ];
    assert_eq!(eligible_positions(&repos, &account.login), vec![1, 4]);
    assert_eq!(eligible_positions(&Vec::new(), &account.login), Vec::<usize>::new());
}

#[test]
fn addresses_are_those_of_the_service() {
    assert_eq!(USER_URL, "https://api.github.com/user");
    assert_eq!(USER_AGENT, "self-reposcope");
    assert_eq!(
        languages_url("octo", "hello-world"),
        "https://api.github.com/repos/octo/hello-world/languages"
    );
}

#[test]
fn the_walk_asks_page_after_page_until_one_is_empty() {
    let pages = RepoPages::start();
    assert_eq!(pages.request_url(), "https://api.github.com/user/repos?per_page=100&page=1");
    let pages = match pages.receive(vec![repo("a", "octo", "User", false), repo("b", "octo", "User", false)]) {
        PageStep::Next(pages) => pages,
        PageStep::Finished(_) => panic!("the page was not empty"),
    };
    assert_eq!(pages.request_url(), "https://api.github.com/user/repos?per_page=100&page=2");
    let pages = match pages.receive(vec![repo("c", "octo", "User", false)]) {
        PageStep::Next(pages) => pages,
        PageStep::Finished(_) => panic!("the page was not empty"),
    };
    assert_eq!(pages.request_url(), "https://api.github.com/user/repos?per_page=100&page=3");
    match pages.receive(Vec::new()) {
        PageStep::Next(_) => panic!("the page was empty"),
        PageStep::Finished(all) => {
            let names: Vec<&str> = all.iter().map(|r| r.name.as_str()).collect();
            assert_eq!(names, vec!["a", "b", "c"]);
        }
    }
}

#[test]
fn an_empty_first_page_ends_the_walk_with_nothing() {
    match RepoPages::start().receive(Vec::new()) {
        PageStep::Next(_) => panic!("the page was empty"),
        PageStep::Finished(all) => assert!(all.is_empty()),
    }
}
