//! Repository records as the hosting service lists them: which of them count
//! for an account, the addresses that are asked for them, and the walk over
//! the pages of the listing.

use vstd::prelude::*;
use vstd::string::*;
use crate::decimal::{decimal_text, push_decimal};

verus! {

/// The owner of a repository.
#[derive(Debug)]
pub struct Owner {
    /// The owner's login name.
    pub login: String,
    /// The kind of account: `"User"` or `"Organization"`.
    pub owner_type: String,
}

/// One repository of the listing.
#[derive(Debug)]
pub struct Repo {
    pub name: String,
    pub private: bool,
    /// True if the repository is a fork of another.
    pub fork: bool,
    /// The repository's primary language, if the service names one.
    pub language: Option<String>,
    pub owner: Owner,
}

/// The authenticated account.
pub struct User {
    pub login: String,
}

/// The kind of an owner that is an organization.
pub const ORGANIZATION: &'static str = "Organization";

/// Where the authenticated account is asked for.
pub const USER_URL: &'static str = "https://api.github.com/user";

/// The name under which every request is made.
pub const USER_AGENT: &'static str = "self-reposcope";

/// The address of a page of the listing, up to the page number.
pub const REPOS_PAGE_URL: &'static str = "https://api.github.com/user/repos?per_page=100&page=";

/// The address of everything about repositories, up to the owner.
pub const REPOS_URL: &'static str = "https://api.github.com/repos/";

/// Between the owner and the repository.
pub const SLASH: &'static str = "/";

/// The end of the address of a repository's languages.
pub const LANGUAGES_SUFFIX: &'static str = "/languages";

/// True if the repository counts for the account `account`: it is no fork,
/// its owner is no organization, and its owner is the account itself.
pub open spec fn spec_is_eligible(repo: Repo, account: Seq<char>) -> bool {
    &&& !repo.fork
    &&& repo.owner.owner_type@ != ORGANIZATION@
    &&& repo.owner.login@ == account
}

/// Decides whether a repository counts for the account `account`.
pub fn is_eligible(repo: &Repo, account: &String) -> (eligible: bool)
    ensures
        eligible == spec_is_eligible(*repo, account@),
{
    if repo.fork {
        return false;
    }
    let organization = String::from_str(ORGANIZATION);
    if repo.owner.owner_type == organization {
        return false;
    }
    repo.owner.login == *account
}

/// The positions of the repositories that count for `account`, in rising
/// order.
pub fn eligible_positions(repos: &Vec<Repo>, account: &String) -> (positions: Vec<usize>)
    ensures
        forall|i: int|
            0 <= i < positions.len() ==> (#[trigger] positions[i]) < repos.len()
                && spec_is_eligible(repos[positions[i] as int], account@),
        forall|i: int, j: int|
            0 <= i < j < positions.len() ==> (#[trigger] positions[i]) < (#[trigger] positions[j]),
        forall|p: int|
            0 <= p < repos.len() && spec_is_eligible(#[trigger] repos[p], account@)
                ==> positions@.contains(p as usize),
{
    let mut positions: Vec<usize> = Vec::new();
    for index in 0..repos.len()
        invariant
            forall|i: int|
                0 <= i < positions.len() ==> (#[trigger] positions[i]) < index
                    && spec_is_eligible(repos[positions[i] as int], account@),
            forall|i: int, j: int|
                0 <= i < j < positions.len() ==> (#[trigger] positions[i]) < (
                #[trigger] positions[j]),
            forall|p: int|
                0 <= p < index && spec_is_eligible(#[trigger] repos[p], account@)
                    ==> positions@.contains(p as usize),
    {
        if is_eligible(&repos[index], account) {
            let ghost before = positions@;
            positions.push(index);
            proof {
                assert(positions@[before.len() as int] == index);
                assert forall|p: int|
                    0 <= p < index + 1 && spec_is_eligible(
                        #[trigger] repos[p],
                        account@,
                    ) implies positions@.contains(p as usize) by {
                    if p < index {
                        assert(before.contains(p as usize));
                        let i = choose|i: int| 0 <= i < before.len() && before[i] == p as usize;
                        assert(positions@[i] == p as usize);
                    }
                }
            }
        }
    }
    positions
}

/// The address of page `page` of the listing, a hundred repositories to the
/// page.
pub open spec fn repos_page_url(page: nat) -> Seq<char> {
    REPOS_PAGE_URL@ + decimal_text(page)
}

/// The address of the languages of repository `name` of `owner`.
pub open spec fn spec_languages_url(owner: Seq<char>, name: Seq<char>) -> Seq<char> {
    REPOS_URL@ + owner + SLASH@ + name + LANGUAGES_SUFFIX@
}

/// Writes the address of the languages of repository `name` of `owner`.
pub fn languages_url(owner: &str, name: &str) -> (url: String)
    ensures
        url@ == spec_languages_url(owner@, name@),
{
    let mut url = String::from_str(REPOS_URL);
    url.append(owner);
    url.append(SLASH);
    url.append(name);
    url.append(LANGUAGES_SUFFIX);
    url
}

/// The walk over the pages of the listing: the repositories received so
/// far, and how many pages they came on.
pub struct RepoPages {
    received: u64,
    repos: Vec<Repo>,
}

/// What follows a page: the next page is asked for, or the listing is
/// complete.
pub enum PageStep {
    /// The page held repositories; the walk goes on with the next page.
    Next(RepoPages),
    /// The page was empty: these are all repositories.
    Finished(Vec<Repo>),
}

impl RepoPages {
    #[verifier::type_invariant]
    spec fn well_formed(&self) -> bool {
        self.received <= self.repos.len()
    }

    /// The number of the page that is asked for next, the first being 1.
    pub closed spec fn page(&self) -> nat {
        self.received as nat + 1
    }

    /// The repositories received so far, in the order they came in.
    pub closed spec fn repos(&self) -> Seq<Repo> {
        self.repos@
    }

    /// The walk before any page: page 1 is next, nothing is received.
    pub fn start() -> (pages: RepoPages)
        ensures
            pages.page() == 1,
            pages.repos() == Seq::<Repo>::empty(),
    {
        RepoPages { received: 0, repos: Vec::new() }
    }

    /// The address to ask for the next page.
    pub fn request_url(&self) -> (url: String)
        ensures
            url@ == repos_page_url(self.page()),
    {
        let mut url = String::from_str(REPOS_PAGE_URL);
        push_decimal(&mut url, self.received as u128 + 1);
        url
    }

    /// Takes in the page that was asked for. An empty page ends the walk
    /// with all repositories received; any other page is added at the end
    /// and the walk goes on with the page after it.
    pub fn receive(self, batch: Vec<Repo>) -> (step: PageStep)
        ensures
            batch.len() == 0 ==> (step matches PageStep::Finished(all) && all@ == self.repos()),
            batch.len() > 0 ==> (step matches PageStep::Next(pages) && pages.page() == self.page()
                + 1 && pages.repos() == self.repos() + batch@),
    {
        proof {
            use_type_invariant(&self);
        }
        let RepoPages { received, repos } = self;
        assert(received <= repos.len());
        if batch.len() == 0 {
            return PageStep::Finished(repos);
        }
        let mut repos = repos;
        let mut batch = batch;
        repos.append(&mut batch);
        assert(received < repos.len());
        PageStep::Next(RepoPages { received: received + 1, repos })
    }
}

} // verus!
