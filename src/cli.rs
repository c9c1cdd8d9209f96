//! The command surface: subcommands and global options.
use vstd::prelude::*;
use crate::text::views;

verus! {

#[derive(Debug)]
pub struct Cli {
    pub subcommand: Option<Subcommands>,
    /// GitHub tokens given on the command line.
    pub gh_token: Vec<String>,
    pub trunk_token: String,
    pub dry_run: bool,
}

#[derive(Debug)]
pub enum Subcommands {
    /// Print the default configuration.
    Defaultconfig,
    /// Print the resolved configuration as JSON.
    Config,
    /// Close conflicting and stale pull requests.
    Housekeeping,
    /// Simulate a test run with the configured flake rate.
    TestSim,
    /// Generate pull requests.
    Generate,
    /// Upload impacted targets.
    UploadTargets(UploadTargets),
    /// Enqueue a pull request.
    Enqueue(Enqueue),
}

#[derive(Debug)]
pub struct UploadTargets {
    /// Path to a file that holds the GitHub event JSON.
    pub github_json: String,
}

#[derive(Debug)]
pub struct Enqueue {
    /// Number of the pull request to enqueue.
    pub pr: String,
}

impl Cli {
    /// The GitHub tokens to use: those given on the command line, or else
    /// `env_token` (the `GH_TOKEN` variable) when it is set and not empty.
    pub fn get_github_tokens(&self, env_token: Option<String>) -> (r: Vec<String>)
        ensures
            self.gh_token@.len() > 0 ==> views(r@) == views(self.gh_token@),
            self.gh_token@.len() == 0 ==> match env_token {
                Some(t) => if t@.len() > 0 {
                    views(r@) == seq![t@]
                } else {
                    r@.len() == 0
                },
                None => r@.len() == 0,
            },
    {
        let mut tokens: Vec<String> = Vec::new();
        let mut i: usize = 0;
        while i < self.gh_token.len()
            invariant
                i <= self.gh_token@.len(),
                views(tokens@) == views(self.gh_token@.take(i as int)),
            decreases self.gh_token@.len() - i,
        {
            let t = self.gh_token[i].clone();
            let ghost before = tokens@;
            tokens.push(t);
            assert(views(tokens@) =~= views(before).push(t@));
            assert(views(self.gh_token@.take(i + 1)) =~= views(self.gh_token@.take(i as int)).push(
                self.gh_token@[i as int]@,
            ));
            i = i + 1;
        }
        assert(self.gh_token@.take(i as int) =~= self.gh_token@);
        if tokens.len() == 0 {
            match env_token {
                Some(t) => {
                    if t.as_str().unicode_len() > 0 {
                        let ghost tv = t@;
                        tokens.push(t);
                        assert(views(tokens@) =~= seq![tv]);
                    }
                },
                None => {},
            }
        }
        tokens
    }
}

} // verus!
