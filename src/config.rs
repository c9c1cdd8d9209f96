//! The configuration of the generator, its defaults and its validation.
use vstd::prelude::*;
use crate::bridge::{duration_of, parse_duration_text};
use crate::distribution::{
    legacy_count, parse_spec, sample, sample_spec,
    DistributionSpec, SCALE,
};
use crate::pacing::{plan, plan_spec, rate_count, PacingPlan};
use crate::text::{split_trimmed, trimmed_pieces, views};

verus! {

#[derive(Clone, Copy, Debug, PartialEq, Eq, Structural)]
pub enum Mode {
    SingleQueue,
    ParallelQueue,
}

#[derive(Clone, Copy, Debug, PartialEq, Eq, Structural)]
pub enum Build {
    /// No build system: changes are plain files.
    NoBuild,
    Bazel,
}

/// A length of time: whole seconds and the nanoseconds beyond them.
#[derive(Clone, Copy, Debug, PartialEq, Eq, Structural)]
pub struct Span {
    pub secs: u64,
    pub nanos: u32,
}

pub open spec fn span_of(d: Option<(u64, u32)>) -> Option<Span> {
    match d {
        Some(p) => Some(Span { secs: p.0, nanos: p.1 }),
        None => None,
    }
}

/// A duration written as text (`"10 minutes"`, `"4 hours"`).
pub fn parse_span(text: &str) -> (r: Option<Span>)
    ensures
        r == span_of(duration_of(text@)),
        r is Some ==> r->Some_0.nanos < 1_000_000_000,
{
    match parse_duration_text(text) {
        Some(p) => Some(Span { secs: p.0, nanos: p.1 }),
        None => None,
    }
}

pub struct TrunkConf {
    pub api: String,
}

pub struct GitConf {
    pub name: String,
    pub email: String,
}

pub struct PullRequestConf {
    pub labels: String,
    pub comment: String,
    pub body: String,
    pub requests_per_hour: u32,
    /// How long a generation run spreads `requests_per_hour` over.
    pub run_generate_for: String,
    pub requests_per_run: u32,
    pub change_code_path: String,
    pub max_deps: usize,
    pub max_impacted_deps: usize,
    pub logical_conflict_every: u32,
    pub logical_conflict_file: String,
    /// Markers that, in a comment old enough, show a request already left the queue.
    pub detect_stale_pr_comments: Vec<String>,
    pub close_stale_after: String,
    /// A distribution of dependency counts, `<probability>x<count>,...`.
    pub deps_distribution: Option<String>,
}

pub struct TestConf {
    /// Failure probability of a simulated test, in units of `1 / SCALE`.
    pub flake_rate: u64,
    pub sleep_for: String,
}

pub struct MergeConf {
    pub labels: String,
    pub comment: String,
    pub run: String,
}

pub struct Conf {
    pub mode: Mode,
    pub build: Build,
    pub trunk: TrunkConf,
    pub git: GitConf,
    pub pullrequest: PullRequestConf,
    pub test: TestConf,
    pub merge: MergeConf,
}

/// One tenth, in probability units.
pub const DEFAULT_FLAKE_RATE: u64 = 100_000_000;

pub open spec fn default_trunk(t: TrunkConf) -> bool {
    t.api@ == "api.trunk.io"@
}

pub open spec fn default_git(g: GitConf) -> bool {
    g.name@ == "Jane Doe"@ && g.email@ == "bot@email.com"@
}

pub open spec fn default_pullrequest(r: PullRequestConf) -> bool {
    &&& r.labels@ == ""@
    &&& r.comment@ == ""@
    &&& r.body@ == "This pull request was generated by the 'mq' tool"@
    &&& r.requests_per_hour == 0
    &&& r.run_generate_for@ == "10 minutes"@
    &&& r.requests_per_run == 0
    &&& r.change_code_path@ == "bazel/"@
    &&& r.max_deps == 1
    &&& r.max_impacted_deps == 1
    &&& r.logical_conflict_every == 100
    &&& r.logical_conflict_file@ == "logical-conflict.txt"@
    &&& views(r.detect_stale_pr_comments@) == seq![
        "removed from the merge queue"@,
        "To merge this pull request, check the box to the left"@,
        "/trunk merge"@,
    ]
    &&& r.close_stale_after@ == "4 hours"@
    &&& r.deps_distribution is None
}

pub open spec fn default_test(t: TestConf) -> bool {
    t.flake_rate == DEFAULT_FLAKE_RATE && t.sleep_for@ == "1 second"@
}

pub open spec fn default_merge(m: MergeConf) -> bool {
    m.labels@ == ""@ && m.comment@ == ""@ && m.run@ == ""@
}

impl Default for TrunkConf {
    fn default() -> (r: TrunkConf)
        ensures
            r.api@ == "api.trunk.io"@,
    {
        TrunkConf { api: String::from_str("api.trunk.io") }
    }
}

impl Default for GitConf {
    fn default() -> (r: GitConf)
        ensures
            r.name@ == "Jane Doe"@,
            r.email@ == "bot@email.com"@,
    {
        GitConf { name: String::from_str("Jane Doe"), email: String::from_str("bot@email.com") }
    }
}

impl Default for PullRequestConf {
    fn default() -> (r: PullRequestConf)
        ensures
            r.labels@ == ""@,
            r.comment@ == ""@,
            r.body@ == "This pull request was generated by the 'mq' tool"@,
            r.requests_per_hour == 0,
            r.run_generate_for@ == "10 minutes"@,
            r.requests_per_run == 0,
            r.change_code_path@ == "bazel/"@,
            r.max_deps == 1,
            r.max_impacted_deps == 1,
            r.logical_conflict_every == 100,
            r.logical_conflict_file@ == "logical-conflict.txt"@,
            views(r.detect_stale_pr_comments@) == seq![
                "removed from the merge queue"@,
                "To merge this pull request, check the box to the left"@,
                "/trunk merge"@,
            ],
            r.close_stale_after@ == "4 hours"@,
            r.deps_distribution is None,
    {
        let mut markers: Vec<String> = Vec::new();
        markers.push(String::from_str("removed from the merge queue"));
        markers.push(String::from_str("To merge this pull request, check the box to the left"));
        markers.push(String::from_str("/trunk merge"));
        assert(views(markers@) =~= seq![
            "removed from the merge queue"@,
            "To merge this pull request, check the box to the left"@,
            "/trunk merge"@,
        ]);
        PullRequestConf {
            labels: String::from_str(""),
            comment: String::from_str(""),
            body: String::from_str("This pull request was generated by the 'mq' tool"),
            requests_per_hour: 0,
            run_generate_for: String::from_str("10 minutes"),
            requests_per_run: 0,
            change_code_path: String::from_str("bazel/"),
            max_deps: 1,
            max_impacted_deps: 1,
            logical_conflict_every: 100,
            logical_conflict_file: String::from_str("logical-conflict.txt"),
            detect_stale_pr_comments: markers,
            close_stale_after: String::from_str("4 hours"),
            deps_distribution: None,
        }
    }
}

impl Default for TestConf {
    fn default() -> (r: TestConf)
        ensures
            r.flake_rate == DEFAULT_FLAKE_RATE,
            r.sleep_for@ == "1 second"@,
    {
        TestConf { flake_rate: DEFAULT_FLAKE_RATE, sleep_for: String::from_str("1 second") }
    }
}

impl Default for MergeConf {
    fn default() -> (r: MergeConf)
        ensures
            r.labels@ == ""@,
            r.comment@ == ""@,
            r.run@ == ""@,
    {
        MergeConf { labels: String::from_str(""), comment: String::from_str(""), run: String::from_str("") }
    }
}

impl Default for Conf {
    fn default() -> (r: Conf)
        ensures
            r.mode == Mode::SingleQueue,
            r.build == Build::NoBuild,
            default_trunk(r.trunk),
            default_git(r.git),
            default_pullrequest(r.pullrequest),
            default_test(r.test),
            default_merge(r.merge),
    {
        Conf {
            mode: Mode::SingleQueue,
            build: Build::NoBuild,
            trunk: TrunkConf::default(),
            git: GitConf::default(),
            pullrequest: PullRequestConf::default(),
            test: TestConf::default(),
            merge: MergeConf::default(),
        }
    }
}

pub const FLAKE_RATE_MESSAGE: &'static str = "flake_rate must be between 0.0 and 1.0";

pub const SLEEP_FOR_MESSAGE: &'static str = "sleep_for must be a valid duration string";

pub const BOTH_RATES_MESSAGE: &'static str = "cannot set both requests_per_hour and requests_per_run";

pub const DISTRIBUTION_MESSAGE: &'static str = "deps_distribution must be a valid distribution";

/// The dependency count of request `pr_number` under `deps_distribution` (if
/// it is set and valid) with the legacy limits as fallback.
pub open spec fn dependency_count_spec(p: PullRequestConf, pr_number: u64, available: usize) -> usize {
    match p.deps_distribution {
        Some(text) => match parse_spec(text@) {
            Ok(bs) => sample_spec(pr_number, available, Some(bs), p.max_deps, p.max_impacted_deps),
            Err(_) => legacy_count(p.max_deps, p.max_impacted_deps, available),
        },
        None => legacy_count(p.max_deps, p.max_impacted_deps, available),
    }
}

pub open spec fn distribution_ok(p: PullRequestConf) -> bool {
    match p.deps_distribution {
        Some(text) => parse_spec(text@) is Ok,
        None => true,
    }
}

impl MergeConf {
    /// The labels to add on enqueueing: `labels` split at commas, each trimmed.
    pub fn label_list(&self) -> (r: Vec<String>)
        ensures
            views(r@) == trimmed_pieces(self.labels@, ','),
    {
        split_trimmed(self.labels.as_str(), ',')
    }
}

impl PullRequestConf {
    /// The labels of a generated request: `labels` split at commas, each trimmed.
    pub fn label_list(&self) -> (r: Vec<String>)
        ensures
            views(r@) == trimmed_pieces(self.labels@, ','),
    {
        split_trimmed(self.labels.as_str(), ',')
    }
}

impl Conf {
    /// The simulated test's duration, if `test.sleep_for` reads as one.
    pub fn sleep_duration(&self) -> (r: Option<Span>)
        ensures
            r == span_of(duration_of(self.test.sleep_for@)),
    {
        parse_span(self.test.sleep_for.as_str())
    }

    /// Neither a rate nor a burst size is set.
    pub fn is_generator_disabled(&self) -> (r: bool)
        ensures
            r == (self.pullrequest.requests_per_hour == 0 && self.pullrequest.requests_per_run == 0),
    {
        self.pullrequest.requests_per_hour == 0 && self.pullrequest.requests_per_run == 0
    }

    /// The age after which a marked comment makes its request stale.
    pub fn close_stale_after_duration(&self) -> (r: Option<Span>)
        ensures
            r == span_of(duration_of(self.pullrequest.close_stale_after@)),
    {
        parse_span(self.pullrequest.close_stale_after.as_str())
    }

    /// The window a generation run spreads its requests over.
    pub fn run_generate_for_duration(&self) -> (r: Option<Span>)
        ensures
            r == span_of(duration_of(self.pullrequest.run_generate_for@)),
    {
        parse_span(self.pullrequest.run_generate_for.as_str())
    }

    /// Checks, in this order: the flake rate lies in (0, 1]; `sleep_for` is a
    /// duration; not both a rate and a burst size are set; the dependency
    /// distribution, when set, is valid.
    pub fn is_valid(&self) -> (r: Result<(), &'static str>)
        ensures
            !(0 < self.test.flake_rate <= SCALE) ==> r == Err::<(), &'static str>(FLAKE_RATE_MESSAGE),
            (0 < self.test.flake_rate <= SCALE) && duration_of(self.test.sleep_for@) is None
                ==> r == Err::<(), &'static str>(SLEEP_FOR_MESSAGE),
            (0 < self.test.flake_rate <= SCALE) && duration_of(self.test.sleep_for@) is Some
                && self.pullrequest.requests_per_hour > 0 && self.pullrequest.requests_per_run > 0
                ==> r == Err::<(), &'static str>(BOTH_RATES_MESSAGE),
            (0 < self.test.flake_rate <= SCALE) && duration_of(self.test.sleep_for@) is Some
                && !(self.pullrequest.requests_per_hour > 0 && self.pullrequest.requests_per_run > 0)
                && !distribution_ok(self.pullrequest)
                ==> r == Err::<(), &'static str>(DISTRIBUTION_MESSAGE),
            r is Ok <==> (0 < self.test.flake_rate <= SCALE) && duration_of(self.test.sleep_for@) is Some
                && !(self.pullrequest.requests_per_hour > 0 && self.pullrequest.requests_per_run > 0)
                && distribution_ok(self.pullrequest),
    {
        if self.test.flake_rate == 0 || self.test.flake_rate > SCALE {
            return Err(FLAKE_RATE_MESSAGE);
        }
        if parse_span(self.test.sleep_for.as_str()).is_none() {
            return Err(SLEEP_FOR_MESSAGE);
        }
        if self.pullrequest.requests_per_hour > 0 && self.pullrequest.requests_per_run > 0 {
            return Err(BOTH_RATES_MESSAGE);
        }
        match &self.pullrequest.deps_distribution {
            Some(text) => {
                if DistributionSpec::parse(text.as_str()).is_err() {
                    return Err(DISTRIBUTION_MESSAGE);
                }
            },
            None => {},
        }
        Ok(())
    }

    /// The number of dependencies request `pr_number` changes among
    /// `available` files: drawn from `deps_distribution` when it is set and
    /// valid, else `min(max_deps, max_impacted_deps, available)`.
    pub fn get_dependency_count(&self, pr_number: u64, available: usize) -> (r: usize)
        ensures
            r == dependency_count_spec(self.pullrequest, pr_number, available),
            r <= available,
    {
        let p = &self.pullrequest;
        match &p.deps_distribution {
            Some(text) => match DistributionSpec::parse(text.as_str()) {
                Ok(d) => sample(pr_number, available, Some(&d), p.max_deps, p.max_impacted_deps),
                Err(_) => sample(pr_number, available, None, p.max_deps, p.max_impacted_deps),
            },
            None => sample(pr_number, available, None, p.max_deps, p.max_impacted_deps),
        }
    }

    /// The pacing of a generation run over `window_secs` seconds (see `pacing::plan`).
    pub fn pacing(&self, window_secs: u64) -> (r: PacingPlan)
        requires
            self.pullrequest.requests_per_run > 0 || rate_count(self.pullrequest.requests_per_hour, window_secs)
                <= usize::MAX,
        ensures
            r == plan_spec(self.pullrequest.requests_per_run, self.pullrequest.requests_per_hour, window_secs),
    {
        plan(self.pullrequest.requests_per_run, self.pullrequest.requests_per_hour, window_secs)
    }
}

} // verus!
