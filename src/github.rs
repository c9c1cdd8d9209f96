//! The pull-request side of GitHub: command lines for the `gh` tool, and the
//! payload of a GitHub Actions event.
use vstd::prelude::*;
use crate::text::{find_char, first_at, owned, views};
use vstd::string::*;

verus! {

/// Builds the arguments of the `gh` calls made on pull requests.
pub struct GitHub;

fn args(parts: &[&str]) -> (r: Vec<String>)
    ensures
        views(r@) == parts@.map_values(|p: &str| p@),
{
    let mut out: Vec<String> = Vec::new();
    let mut i: usize = 0;
    while i < parts.len()
        invariant
            i <= parts@.len(),
            views(out@) == parts@.take(i as int).map_values(|p: &str| p@),
        decreases parts@.len() - i,
    {
        let piece = owned(parts[i]);
        let ghost before = out@;
        out.push(piece);
        assert(views(out@) =~= views(before).push(piece@));
        assert(parts@.take(i + 1).map_values(|p: &str| p@) =~= parts@.take(i as int).map_values(
            |p: &str| p@,
        ).push(parts@[i as int]@));
        i = i + 1;
    }
    assert(parts@.take(i as int) =~= parts@);
    out
}

impl GitHub {
    /// `gh pr comment <pr> --body <body>`.
    pub fn comment(pr: &str, body: &str) -> (r: Vec<String>)
        ensures
            views(r@) == seq!["pr"@, "comment"@, pr@, "--body"@, body@],
    {
        let parts = ["pr", "comment", pr, "--body", body];
        let r = args(&parts);
        assert(parts@.map_values(|p: &str| p@) =~= seq!["pr"@, "comment"@, pr@, "--body"@, body@]);
        r
    }

    /// `gh pr close <pr>`.
    pub fn close(pr: &str) -> (r: Vec<String>)
        ensures
            views(r@) == seq!["pr"@, "close"@, pr@],
    {
        let parts = ["pr", "close", pr];
        let r = args(&parts);
        assert(parts@.map_values(|p: &str| p@) =~= seq!["pr"@, "close"@, pr@]);
        r
    }

    /// `gh pr edit <pr> --add-label <label>`.
    pub fn add_label(pr: &str, label: &str) -> (r: Vec<String>)
        ensures
            views(r@) == seq!["pr"@, "edit"@, pr@, "--add-label"@, label@],
    {
        let parts = ["pr", "edit", pr, "--add-label", label];
        let r = args(&parts);
        assert(parts@.map_values(|p: &str| p@) =~= seq!["pr"@, "edit"@, pr@, "--add-label"@, label@]);
        r
    }
}

/// A GitHub Actions event about a pull request; `repository` is `owner/name`.
pub struct GitHubAction {
    pub repository: String,
    pub event: Event,
}

pub struct Event {
    pub pull_request: PullRequest,
}

pub struct PullRequest {
    pub number: u32,
    pub head: Head,
    pub body: Option<String>,
}

pub struct Head {
    pub sha: String,
}

/// The owner: what precedes the first `/` (all of it if there is none).
pub open spec fn owner_of(repo: Seq<char>) -> Seq<char> {
    repo.take(first_at(repo, '/', 0))
}

/// The name: what lies between the first `/` and the next one (or the end).
pub open spec fn name_of(repo: Seq<char>) -> Seq<char> {
    let k = first_at(repo, '/', 0);
    repo.subrange(k + 1, first_at(repo, '/', k + 1))
}

impl GitHubAction {
    /// The repository owner.
    pub fn repo_owner(&self) -> (r: &str)
        ensures
            r@ == owner_of(self.repository@),
    {
        let s = self.repository.as_str();
        let n = s.unicode_len();
        let k = find_char(s, '/', 0, n);
        assert(s@.subrange(0, n as int) =~= s@);
        s.substring_char(0, k)
    }

    /// The repository name; the repository must hold a `/`.
    pub fn repo_name(&self) -> (r: &str)
        requires
            self.repository@.contains('/'),
        ensures
            r@ == name_of(self.repository@),
    {
        let s = self.repository.as_str();
        let n = s.unicode_len();
        let k = find_char(s, '/', 0, n);
        assert(s@.subrange(0, n as int) =~= s@);
        proof {
            if k == n {
                let w = choose|w: int| 0 <= w < s@.len() && s@[w] == '/';
                crate::text::lemma_first_at_least(s@, '/', 0, w);
            }
        }
        let e = find_char(s, '/', k + 1, n);
        proof {
            crate::text::lemma_first_at_shift(s@, '/', k + 1, e as int);
        }
        s.substring_char(k + 1, e)
    }
}

} // verus!
