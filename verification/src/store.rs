//! The store tab: Bevy games found on GitHub, and how a search result
//! becomes an entry of the store.

use vstd::prelude::*;
use crate::readme::{readme_summary, summarize_readme, summary_exists};

verus! {

/// A game offered in the store.
#[derive(Clone, Debug, PartialEq, Eq)]
pub struct StoreGameItem {
    pub name: String,
    pub owner: String,
    pub description: String,
    pub stars: u32,
    pub url: String,
}

/// What the store tab knows: the games found, whether the search still
/// runs, and the error that ended it, if any.
#[derive(Clone, Debug, PartialEq, Eq)]
pub struct StoreGames {
    pub items: Vec<StoreGameItem>,
    pub loading: bool,
    pub error: Option<String>,
}

impl Default for StoreGames {
    fn default() -> (res: StoreGames)
        ensures
            res.items@.len() == 0,
            !res.loading,
            res.error is None,
    {
        StoreGames { items: Vec::new(), loading: false, error: None }
    }
}

impl StoreGames {
    /// The store while the search runs.
    pub fn searching() -> (res: StoreGames)
        ensures
            res.items@.len() == 0,
            res.loading,
            res.error is None,
    {
        StoreGames { items: Vec::new(), loading: true, error: None }
    }

    /// Takes in the outcome of the search: the search has ended; the games
    /// found replace the list and clear the error, or the error is kept and
    /// the list stays as it was.
    pub fn apply_search_result(&mut self, result: Result<Vec<StoreGameItem>, String>)
        ensures
            !final(self).loading,
            match result {
                Ok(items) => final(self).items == items && final(self).error is None,
                Err(e) => final(self).items == old(self).items && final(self).error == Some(e),
            },
    {
        self.loading = false;
        match result {
            Ok(items) => {
                self.items = items;
                self.error = None;
            },
            Err(e) => {
                self.error = Some(e);
            },
        }
    }
}

/// A repository as GitHub's search answers it.
#[derive(Clone, Debug, PartialEq, Eq)]
pub struct RepoSummary {
    pub name: String,
    pub html_url: String,
    pub description: Option<String>,
    pub stargazers_count: u32,
    pub owner_login: String,
}

/// How many search results the store shows.
pub const STORE_SIZE: usize = 5;

/// The search for Bevy games on GitHub, most starred first.
pub open spec fn search_url() -> Seq<char> {
    "https://api.github.com/search/repositories?q=topic:bevy+topic:game&sort=stars&order=desc"@
}

/// The address of the search for Bevy games.
pub fn store_search_url() -> (res: &'static str)
    ensures
        res@ == search_url(),
{
    "https://api.github.com/search/repositories?q=topic:bevy+topic:game&sort=stars&order=desc"
}

/// The first five search results, in order.
pub fn top_repos(repos: Vec<RepoSummary>) -> (res: Vec<RepoSummary>)
    ensures
        res@ == repos@.take(if repos@.len() < STORE_SIZE { repos@.len() as int } else { STORE_SIZE as int }),
{
    let mut res = repos;
    res.truncate(STORE_SIZE);
    proof {
        if res@.len() < STORE_SIZE {
            assert(res@ =~= repos@.take(repos@.len() as int));
        }
    }
    res
}

/// The address of a repository's README.
pub open spec fn readme_url_of(owner: Seq<char>, repo: Seq<char>) -> Seq<char> {
    "https://api.github.com/repos/"@ + owner + "/"@ + repo + "/readme"@
}

/// The address of the README of `owner`'s repository `repo`.
pub fn readme_url(owner: &str, repo: &str) -> (res: String)
    ensures
        res@ == readme_url_of(owner@, repo@),
{
    let mut res = String::from_str("https://api.github.com/repos/");
    res.append(owner);
    res.append("/");
    res.append(repo);
    res.append("/readme");
    res
}

/// The description a store game gets: the summary of its README where that
/// was fetched and is not empty, else the repository's own description;
/// where that is empty too, `No description provided.`.
pub open spec fn store_description(repo_description: Option<String>, readme: Option<Seq<char>>) -> Seq<char> {
    let fallback = match repo_description {
        Some(d) => d@,
        None => Seq::<char>::empty(),
    };
    let chosen = match readme {
        Some(t) => if readme_summary(t).len() > 0 {
            readme_summary(t)
        } else {
            fallback
        },
        None => fallback,
    };
    if chosen.len() == 0 {
        "No description provided."@
    } else {
        chosen
    }
}

/// A store game is described by the summary of its README wherever that
/// was fetched and is not empty, whatever description, or none, the
/// repository has. Without such a summary it is described by the
/// repository's own description where that is not empty, else by
/// `No description provided.`.
pub proof fn law_summary_describes_game(repo_description: Option<String>, readme: Option<Seq<char>>)
    ensures
        readme is Some && readme_summary(readme.unwrap()).len() > 0 ==> store_description(
            repo_description,
            readme,
        ) == readme_summary(readme.unwrap()),
        !(readme is Some && readme_summary(readme.unwrap()).len() > 0) ==> store_description(
            repo_description,
            readme,
        ) == if repo_description is Some && repo_description.unwrap()@.len() > 0 {
            repo_description.unwrap()@
        } else {
            "No description provided."@
        },
{
}

/// The store entry for a repository, given its README where that could be
/// fetched. `None` where the README has no summary (see
/// [`crate::readme::summarize_readme`]).
pub fn store_item(repo: &RepoSummary, readme: Option<&str>) -> (res: Option<StoreGameItem>)
    ensures
        res is None <==> (readme matches Some(t) && !summary_exists(t@)),
        res matches Some(item) ==> {
            &&& item.name == repo.name
            &&& item.owner == repo.owner_login
            &&& item.stars == repo.stargazers_count
            &&& item.url == repo.html_url
            &&& item.description@ == store_description(
                repo.description,
                match readme {
                    Some(t) => Some(t@),
                    None => None,
                },
            )
        },
{
    let mut description = match &repo.description {
        Some(d) => d.clone(),
        None => String::new(),
    };
    match readme {
        Some(t) => match summarize_readme(t) {
            Some(cleaned) => {
                if cleaned.unicode_len() > 0 {
                    description = cleaned;
                }
            },
            None => {
                return None;
            },
        },
        None => {},
    }
    if description.unicode_len() == 0 {
        description = String::from_str("No description provided.");
    }
    Some(
        StoreGameItem {
            name: repo.name.clone(),
            owner: repo.owner_login.clone(),
            description,
            stars: repo.stargazers_count,
            url: repo.html_url.clone(),
        },
    )
}

/// Why the search failed.
#[derive(Clone, Debug, PartialEq, Eq)]
pub enum SearchFailure {
    /// The request did not get an answer.
    Network,
    /// The answer was not the expected JSON.
    Parse,
}

/// The error shown for a failed search; `detail` is what the failing
/// library said.
pub fn search_error_message(kind: SearchFailure, detail: &str) -> (res: String)
    ensures
        match kind {
            SearchFailure::Network => res@ == "Network Error: "@ + detail@,
            SearchFailure::Parse => res@ == "JSON Parse Error: "@ + detail@,
        },
{
    let mut res = match kind {
        SearchFailure::Network => String::from_str("Network Error: "),
        SearchFailure::Parse => String::from_str("JSON Parse Error: "),
    };
    res.append(detail);
    res
}

} // verus!
