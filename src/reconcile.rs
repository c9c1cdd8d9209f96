//! Reconciliation of outstanding pull requests: one pass over a snapshot
//! decides which requests to close, and a bounded retry loop re-polls while
//! some mergeability is still being computed.
use vstd::prelude::*;
use crate::bridge::{parse_rfc3339, rfc3339_seconds};
use crate::text::{contains_seq, contains_str};

verus! {

/// Polls of one reconciliation run, at most.
pub const MAX_ATTEMPTS: u32 = 3;

/// Seconds to wait before polling again after an inconclusive pass.
pub const RETRY_DELAY_SECS: u64 = 10;

#[derive(Clone, Copy, Debug, PartialEq, Eq, Structural)]
pub enum Mergeability {
    Mergeable,
    Conflicting,
    Unknown,
    Other,
}

/// A comment on an outstanding request; `created_at` is an RFC 3339 timestamp
/// (or empty when the code host gave none).
#[derive(Debug)]
pub struct Comment {
    pub body: String,
    pub created_at: String,
}

/// One entry of the snapshot of outstanding requests.
#[derive(Debug)]
pub struct OutstandingItem {
    pub id: i64,
    pub mergeability: Mergeability,
    pub comments: Vec<Comment>,
}

#[derive(Clone, Copy, Debug, PartialEq, Eq, Structural)]
pub enum CloseReason {
    /// The request has merge conflicts.
    Conflicting,
    /// A comment old enough carries a stale marker: the request already left the queue.
    Stale,
}

/// A request to close, and why.
#[derive(Clone, Copy, Debug, PartialEq, Eq, Structural)]
pub struct CloseAction {
    pub id: i64,
    pub reason: CloseReason,
}

/// What one pass over a snapshot decided.
#[derive(Debug)]
pub struct PassReport {
    /// Requests to close, in snapshot order.
    pub closed: Vec<CloseAction>,
    /// Requests closed as stale during this pass; none is acted on twice.
    pub ledger: Vec<i64>,
    /// Whether some request's mergeability was still unknown.
    pub saw_unknown: bool,
    /// Whether the pass stopped at a timestamp that is not RFC 3339.
    pub malformed: bool,
}

/// What a single comment says about its request.
#[derive(Clone, Copy, Debug, PartialEq, Eq, Structural)]
pub enum Verdict {
    /// Too recent, undated, or without a stale marker.
    Skip,
    /// Old enough and carrying a stale marker.
    Qualifies,
    /// Its timestamp cannot be read.
    Malformed,
}

pub type PassView = (Seq<CloseAction>, Seq<i64>, bool, bool);

impl PassReport {
    pub open spec fn view(&self) -> PassView {
        (self.closed@, self.ledger@, self.saw_unknown, self.malformed)
    }
}

/// Whether `body` contains any of `markers`.
pub open spec fn has_marker(body: Seq<char>, markers: Seq<String>) -> bool {
    exists|k: int| 0 <= k < markers.len() && contains_seq(body, (#[trigger] markers[k])@)
}

/// A comment qualifies when it is dated no later than `now - stale_after`
/// and its body contains a stale marker.
pub open spec fn comment_verdict(c: Comment, now: i64, stale_after: u64, markers: Seq<String>) -> Verdict {
    if c.created_at@.len() == 0 {
        Verdict::Skip
    } else {
        match rfc3339_seconds(c.created_at@) {
            None => Verdict::Malformed,
            Some(t) => if t as int > now as int - stale_after as int {
                Verdict::Skip
            } else if has_marker(c.body@, markers) {
                Verdict::Qualifies
            } else {
                Verdict::Skip
            },
        }
    }
}

/// The first comment, in order, that does not skip decides; `Skip` if none.
pub open spec fn first_verdict(cs: Seq<Comment>, now: i64, stale_after: u64, markers: Seq<String>) -> Verdict
    decreases cs.len(),
{
    if cs.len() == 0 {
        Verdict::Skip
    } else {
        match comment_verdict(cs[0], now, stale_after, markers) {
            Verdict::Skip => first_verdict(cs.skip(1), now, stale_after, markers),
            v => v,
        }
    }
}

/// The effect of one snapshot entry on the pass so far.
pub open spec fn step(st: PassView, item: OutstandingItem, now: i64, stale_after: u64, markers: Seq<String>) -> PassView {
    if st.3 {
        st
    } else {
        match item.mergeability {
            Mergeability::Conflicting => (
                st.0.push(CloseAction { id: item.id, reason: CloseReason::Conflicting }),
                st.1,
                st.2,
                st.3,
            ),
            Mergeability::Unknown => (st.0, st.1, true, st.3),
            Mergeability::Mergeable => if st.1.contains(item.id) {
                st
            } else {
                match first_verdict(item.comments@, now, stale_after, markers) {
                    Verdict::Skip => st,
                    Verdict::Qualifies => (
                        st.0.push(CloseAction { id: item.id, reason: CloseReason::Stale }),
                        st.1.push(item.id),
                        st.2,
                        st.3,
                    ),
                    Verdict::Malformed => (st.0, st.1, st.2, true),
                }
            },
            Mergeability::Other => st,
        }
    }
}

/// One pass over the snapshot `items`, in order.
pub open spec fn pass_spec(items: Seq<OutstandingItem>, now: i64, stale_after: u64, markers: Seq<String>) -> PassView
    decreases items.len(),
{
    if items.len() == 0 {
        (Seq::empty(), Seq::empty(), false, false)
    } else {
        step(pass_spec(items.drop_last(), now, stale_after, markers), items.last(), now, stale_after, markers)
    }
}

fn has_marker_exec(body: &String, markers: &Vec<String>) -> (r: bool)
    ensures
        r == has_marker(body@, markers@),
{
    let mut k: usize = 0;
    while k < markers.len()
        invariant
            k <= markers@.len(),
            forall|j: int| 0 <= j < k ==> !contains_seq(body@, (#[trigger] markers@[j])@),
        decreases markers@.len() - k,
    {
        if contains_str(body.as_str(), markers[k].as_str()) {
            return true;
        }
        k = k + 1;
    }
    false
}

/// What comment `c` says about its request at time `now` (Unix seconds).
pub fn verdict_of(c: &Comment, now: i64, stale_after: u64, markers: &Vec<String>) -> (r: Verdict)
    ensures
        r == comment_verdict(*c, now, stale_after, markers@),
{
    if c.created_at.as_str().unicode_len() == 0 {
        return Verdict::Skip;
    }
    match parse_rfc3339(c.created_at.as_str()) {
        None => Verdict::Malformed,
        Some(t) => {
            if t as i128 + stale_after as i128 > now as i128 {
                Verdict::Skip
            } else if has_marker_exec(&c.body, markers) {
                Verdict::Qualifies
            } else {
                Verdict::Skip
            }
        },
    }
}

/// The first comment of `cs`, in order, that does not skip decides.
pub fn first_verdict_of(cs: &Vec<Comment>, now: i64, stale_after: u64, markers: &Vec<String>) -> (r: Verdict)
    ensures
        r == first_verdict(cs@, now, stale_after, markers@),
{
    let mut j: usize = 0;
    assert(cs@.skip(0) =~= cs@);
    while j < cs.len()
        invariant
            j <= cs@.len(),
            first_verdict(cs@, now, stale_after, markers@) == first_verdict(cs@.skip(j as int), now, stale_after, markers@),
        decreases cs@.len() - j,
    {
        let v = verdict_of(&cs[j], now, stale_after, markers);
        assert(cs@.skip(j as int)[0] == cs@[j as int]);
        assert(cs@.skip(j as int).skip(1) =~= cs@.skip(j + 1));
        match v {
            Verdict::Skip => {},
            _ => {
                return v;
            },
        }
        j = j + 1;
    }
    assert(cs@.skip(j as int).len() == 0);
    Verdict::Skip
}

fn ledger_has(ledger: &Vec<i64>, id: i64) -> (r: bool)
    ensures
        r == ledger@.contains(id),
{
    let mut k: usize = 0;
    while k < ledger.len()
        invariant
            k <= ledger@.len(),
            forall|j: int| 0 <= j < k ==> ledger@[j] != id,
        decreases ledger@.len() - k,
    {
        if ledger[k] == id {
            assert(ledger@[k as int] == id);
            return true;
        }
        k = k + 1;
    }
    false
}

/// Classifies and acts on each item of the snapshot, in order, at time `now`
/// (Unix seconds): a conflicting request is closed; a mergeable one not yet
/// in the ledger is closed and entered in the ledger when its first
/// qualifying comment (dated at least `stale_after` seconds before `now`,
/// with a stale marker in its body) is found; an unknown one is noted; any
/// other is left alone. The pass stops at the first timestamp that is not
/// RFC 3339 and reports it.
pub fn reconcile_pass(items: &Vec<OutstandingItem>, now: i64, stale_after: u64, markers: &Vec<String>) -> (r: PassReport)
    ensures
        r@ == pass_spec(items@, now, stale_after, markers@),
{
    let mut report = PassReport { closed: Vec::new(), ledger: Vec::new(), saw_unknown: false, malformed: false };
    let mut i: usize = 0;
    assert(report@ == pass_spec(items@.take(0), now, stale_after, markers@)) by {
        assert(report.closed@ =~= Seq::<CloseAction>::empty());
        assert(report.ledger@ =~= Seq::<i64>::empty());
    }
    while i < items.len()
        invariant
            i <= items@.len(),
            report@ == pass_spec(items@.take(i as int), now, stale_after, markers@),
        decreases items@.len() - i,
    {
        let item = &items[i];
        let ghost before = report@;
        assert(items@.take(i + 1).drop_last() =~= items@.take(i as int));
        assert(items@.take(i + 1).last() == items@[i as int]);
        if !report.malformed {
            match item.mergeability {
                Mergeability::Conflicting => {
                    report.closed.push(CloseAction { id: item.id, reason: CloseReason::Conflicting });
                },
                Mergeability::Unknown => {
                    report.saw_unknown = true;
                },
                Mergeability::Mergeable => {
                    if !ledger_has(&report.ledger, item.id) {
                        match first_verdict_of(&item.comments, now, stale_after, markers) {
                            Verdict::Skip => {},
                            Verdict::Qualifies => {
                                report.closed.push(CloseAction { id: item.id, reason: CloseReason::Stale });
                                report.ledger.push(item.id);
                            },
                            Verdict::Malformed => {
                                report.malformed = true;
                            },
                        }
                    }
                },
                Mergeability::Other => {},
            }
        }
        assert(report@ == step(before, items@[i as int], now, stale_after, markers@));
        i = i + 1;
    }
    assert(items@.take(i as int) =~= items@);
    report
}

/// Within one pass no request is closed as stale twice: the ledger holds each
/// request at most once, and every request closed as stale is in the ledger.
pub proof fn lemma_stale_closes_once(items: Seq<OutstandingItem>, now: i64, stale_after: u64, markers: Seq<String>)
    ensures
        ({
            let st = pass_spec(items, now, stale_after, markers);
            &&& forall|j: int, k: int| 0 <= j < k < st.1.len() ==> st.1[j] != st.1[k]
            &&& forall|j: int|
                0 <= j < st.0.len() && (#[trigger] st.0[j]).reason == CloseReason::Stale
                    ==> st.1.contains(st.0[j].id)
        }),
    decreases items.len(),
{
    if items.len() > 0 {
        lemma_stale_closes_once(items.drop_last(), now, stale_after, markers);
        let prev = pass_spec(items.drop_last(), now, stale_after, markers);
        let st = pass_spec(items, now, stale_after, markers);
        let item = items.last();
        assert(st == step(prev, item, now, stale_after, markers));
        if !prev.3 && item.mergeability == Mergeability::Mergeable && !prev.1.contains(item.id)
            && first_verdict(item.comments@, now, stale_after, markers) == Verdict::Qualifies {
            assert forall|j: int, k: int| 0 <= j < k < st.1.len() implies st.1[j] != st.1[k] by {
                if k == st.1.len() - 1 {
                    assert(st.1[k] == item.id);
                    assert(st.1[j] == prev.1[j]);
                    if st.1[j] == item.id {
                        assert(prev.1.contains(item.id));
                    }
                } else {
                    assert(st.1[j] == prev.1[j]);
                    assert(st.1[k] == prev.1[k]);
                }
            }
            assert forall|j: int|
                0 <= j < st.0.len() && (#[trigger] st.0[j]).reason == CloseReason::Stale implies st.1.contains(
                st.0[j].id,
            ) by {
                if j == st.0.len() - 1 {
                    assert(st.1[st.1.len() - 1] == item.id);
                } else {
                    assert(st.0[j] == prev.0[j]);
                    let w = choose|w: int| 0 <= w < prev.1.len() && prev.1[w] == prev.0[j].id;
                    assert(st.1[w] == prev.1[w]);
                }
            }
        } else if !prev.3 && item.mergeability == Mergeability::Conflicting {
            assert forall|j: int|
                0 <= j < st.0.len() && (#[trigger] st.0[j]).reason == CloseReason::Stale implies st.1.contains(
                st.0[j].id,
            ) by {
                if j < st.0.len() - 1 {
                    assert(st.0[j] == prev.0[j]);
                }
            }
        }
    }
}

proof fn lemma_push_keeps<T>(s: Seq<T>, a: T, x: T)
    ensures
        s.contains(x) ==> s.push(a).contains(x),
        s.push(a).contains(a),
{
    if s.contains(x) {
        let j = choose|j: int| 0 <= j < s.len() && s[j] == x;
        assert(s.push(a)[j] == x);
    }
    assert(s.push(a)[s.len() as int] == a);
}

/// Comments that were all dated after `now - stale_after` never close their
/// request, whatever their bodies say.
pub proof fn lemma_fresh_comments_skip(cs: Seq<Comment>, now: i64, stale_after: u64, markers: Seq<String>)
    requires
        forall|j: int|
            0 <= j < cs.len() ==> match rfc3339_seconds((#[trigger] cs[j]).created_at@) {
                Some(t) => t as int > now as int - stale_after as int,
                None => false,
            },
    ensures
        first_verdict(cs, now, stale_after, markers) == Verdict::Skip,
    decreases cs.len(),
{
    if cs.len() > 0 {
        let rest = cs.skip(1);
        assert forall|j: int|
            0 <= j < rest.len() implies match rfc3339_seconds((#[trigger] rest[j]).created_at@) {
            Some(t) => t as int > now as int - stale_after as int,
            None => false,
        } by {
            assert(rest[j] == cs[j + 1]);
        }
        lemma_fresh_comments_skip(rest, now, stale_after, markers);
        let c = cs[0];
        assert(match rfc3339_seconds(c.created_at@) {
            Some(t) => t as int > now as int - stale_after as int,
            None => false,
        });
    }
}

/// When no comment's timestamp is malformed, a comment that qualifies (dated
/// no later than `now - stale_after`, with a stale marker) makes its request
/// qualify.
pub proof fn lemma_qualifying_comment_decides(
    cs: Seq<Comment>,
    k: int,
    now: i64,
    stale_after: u64,
    markers: Seq<String>,
)
    requires
        0 <= k < cs.len(),
        comment_verdict(cs[k], now, stale_after, markers) == Verdict::Qualifies,
        forall|j: int| 0 <= j < cs.len() ==> comment_verdict(#[trigger] cs[j], now, stale_after, markers) != Verdict::Malformed,
    ensures
        first_verdict(cs, now, stale_after, markers) == Verdict::Qualifies,
    decreases k,
{
    if k > 0 && comment_verdict(cs[0], now, stale_after, markers) == Verdict::Skip {
        let rest = cs.skip(1);
        assert(rest[k - 1] == cs[k]);
        assert forall|j: int| 0 <= j < rest.len() implies comment_verdict(#[trigger] rest[j], now, stale_after, markers)
            != Verdict::Malformed by {
            assert(rest[j] == cs[j + 1]);
        }
        lemma_qualifying_comment_decides(rest, k - 1, now, stale_after, markers);
    }
}

/// Without malformed comment timestamps no comment sequence reads as malformed.
pub proof fn lemma_well_dated_comments(cs: Seq<Comment>, now: i64, stale_after: u64, markers: Seq<String>)
    requires
        forall|j: int| 0 <= j < cs.len() ==> comment_verdict(#[trigger] cs[j], now, stale_after, markers) != Verdict::Malformed,
    ensures
        first_verdict(cs, now, stale_after, markers) != Verdict::Malformed,
    decreases cs.len(),
{
    if cs.len() > 0 {
        let rest = cs.skip(1);
        assert forall|j: int| 0 <= j < rest.len() implies comment_verdict(#[trigger] rest[j], now, stale_after, markers)
            != Verdict::Malformed by {
            assert(rest[j] == cs[j + 1]);
        }
        lemma_well_dated_comments(rest, now, stale_after, markers);
        assert(comment_verdict(cs[0], now, stale_after, markers) != Verdict::Malformed);
    }
}

/// A snapshot whose comments all have readable (or no) timestamps is passed
/// over completely: the pass never stops early.
pub proof fn lemma_well_dated_pass_completes(
    items: Seq<OutstandingItem>,
    now: i64,
    stale_after: u64,
    markers: Seq<String>,
)
    requires
        forall|i: int, j: int|
            0 <= i < items.len() && 0 <= j < items[i].comments@.len() ==> comment_verdict(
                #[trigger] items[i].comments@[j],
                now,
                stale_after,
                markers,
            ) != Verdict::Malformed,
    ensures
        !pass_spec(items, now, stale_after, markers).3,
    decreases items.len(),
{
    if items.len() > 0 {
        let init = items.drop_last();
        assert forall|i: int, j: int|
            0 <= i < init.len() && 0 <= j < init[i].comments@.len() implies comment_verdict(
            #[trigger] init[i].comments@[j],
            now,
            stale_after,
            markers,
        ) != Verdict::Malformed by {
            assert(init[i] == items[i]);
        }
        lemma_well_dated_pass_completes(init, now, stale_after, markers);
        let last = items.last();
        assert forall|j: int| 0 <= j < last.comments@.len() implies comment_verdict(
            #[trigger] last.comments@[j],
            now,
            stale_after,
            markers,
        ) != Verdict::Malformed by {
            assert(items[items.len() - 1] == last);
        }
        lemma_well_dated_comments(last.comments@, now, stale_after, markers);
    }
}

/// A pass that did not stop at a malformed timestamp closes every conflicting
/// request and every mergeable request whose comments qualify, enters the
/// latter in the ledger, reports any unknown request, and closes nothing
/// else: each close is owed to an item of the snapshot with that id.
pub proof fn lemma_pass_effects(items: Seq<OutstandingItem>, now: i64, stale_after: u64, markers: Seq<String>)
    requires
        !pass_spec(items, now, stale_after, markers).3,
    ensures
        ({
            let st = pass_spec(items, now, stale_after, markers);
            &&& forall|i: int|
                0 <= i < items.len() && (#[trigger] items[i]).mergeability == Mergeability::Conflicting
                    ==> st.0.contains(CloseAction { id: items[i].id, reason: CloseReason::Conflicting })
            &&& forall|i: int|
                0 <= i < items.len() && (#[trigger] items[i]).mergeability == Mergeability::Unknown ==> st.2
            &&& forall|i: int|
                0 <= i < items.len() && (#[trigger] items[i]).mergeability == Mergeability::Mergeable
                    && first_verdict(items[i].comments@, now, stale_after, markers) == Verdict::Qualifies
                    ==> st.1.contains(items[i].id) && st.0.contains(
                    CloseAction { id: items[i].id, reason: CloseReason::Stale },
                )
            &&& forall|x: i64| #[trigger] st.1.contains(x) ==> st.0.contains(CloseAction { id: x, reason: CloseReason::Stale })
            &&& forall|j: int|
                0 <= j < st.0.len() ==> exists|i: int|
                    0 <= i < items.len() && (#[trigger] items[i]).id == (#[trigger] st.0[j]).id && (if st.0[j].reason
                        == CloseReason::Conflicting {
                        items[i].mergeability == Mergeability::Conflicting
                    } else {
                        items[i].mergeability == Mergeability::Mergeable && first_verdict(
                            items[i].comments@,
                            now,
                            stale_after,
                            markers,
                        ) == Verdict::Qualifies
                    })
        }),
    decreases items.len(),
{
    if items.len() > 0 {
        let init = items.drop_last();
        let prev = pass_spec(init, now, stale_after, markers);
        let st = pass_spec(items, now, stale_after, markers);
        let item = items.last();
        let n = items.len() - 1;
        assert(items[n] == item);
        assert(st == step(prev, item, now, stale_after, markers));
        assert(!prev.3);
        lemma_pass_effects(init, now, stale_after, markers);
        let v = first_verdict(item.comments@, now, stale_after, markers);
        let conflict_close = CloseAction { id: item.id, reason: CloseReason::Conflicting };
        let stale_close = CloseAction { id: item.id, reason: CloseReason::Stale };
        assert forall|a: CloseAction| prev.0.contains(a) implies st.0.contains(a) by {
            lemma_push_keeps(prev.0, conflict_close, a);
            lemma_push_keeps(prev.0, stale_close, a);
        }
        assert forall|x: i64| prev.1.contains(x) implies st.1.contains(x) by {
            lemma_push_keeps(prev.1, item.id, x);
        }
        lemma_push_keeps(prev.0, conflict_close, conflict_close);
        lemma_push_keeps(prev.0, stale_close, stale_close);
        lemma_push_keeps(prev.1, item.id, item.id);
        assert forall|i: int|
            0 <= i < items.len() && (#[trigger] items[i]).mergeability == Mergeability::Conflicting implies st.0.contains(
            CloseAction { id: items[i].id, reason: CloseReason::Conflicting },
        ) by {
            if i < n {
                assert(init[i] == items[i]);
            }
        }
        assert forall|i: int|
            0 <= i < items.len() && (#[trigger] items[i]).mergeability == Mergeability::Unknown implies st.2 by {
            if i < n {
                assert(init[i] == items[i]);
            }
        }
        assert forall|i: int|
            0 <= i < items.len() && (#[trigger] items[i]).mergeability == Mergeability::Mergeable
                && first_verdict(items[i].comments@, now, stale_after, markers) == Verdict::Qualifies implies st.1.contains(
            items[i].id,
        ) && st.0.contains(CloseAction { id: items[i].id, reason: CloseReason::Stale }) by {
            if i < n {
                assert(init[i] == items[i]);
            } else if prev.1.contains(item.id) {
                assert(prev.0.contains(stale_close));
            }
        }
        assert forall|x: i64| #[trigger] st.1.contains(x) implies st.0.contains(
            CloseAction { id: x, reason: CloseReason::Stale },
        ) by {
            if !prev.1.contains(x) {
                let w = choose|w: int| 0 <= w < st.1.len() && st.1[w] == x;
                if w < prev.1.len() {
                    assert(st.1 == prev.1.push(item.id));
                    assert(prev.1[w] == x);
                }
            } else {
                assert(prev.0.contains(CloseAction { id: x, reason: CloseReason::Stale }));
            }
        }
        assert forall|j: int| 0 <= j < st.0.len() implies exists|i: int|
            0 <= i < items.len() && (#[trigger] items[i]).id == (#[trigger] st.0[j]).id && (if st.0[j].reason
                == CloseReason::Conflicting {
                items[i].mergeability == Mergeability::Conflicting
            } else {
                items[i].mergeability == Mergeability::Mergeable && first_verdict(
                    items[i].comments@,
                    now,
                    stale_after,
                    markers,
                ) == Verdict::Qualifies
            }) by {
            if j < prev.0.len() {
                assert(st.0[j] == prev.0[j]);
                let i = choose|i: int|
                    0 <= i < init.len() && (#[trigger] init[i]).id == (#[trigger] prev.0[j]).id && (if prev.0[j].reason
                        == CloseReason::Conflicting {
                        init[i].mergeability == Mergeability::Conflicting
                    } else {
                        init[i].mergeability == Mergeability::Mergeable && first_verdict(
                            init[i].comments@,
                            now,
                            stale_after,
                            markers,
                        ) == Verdict::Qualifies
                    });
                assert(items[i] == init[i]);
            } else {
                assert(items[n].id == st.0[j].id);
            }
        }
    }
}

/// A run whose every pass sees an unknown request polls exactly
/// `MAX_ATTEMPTS` times, waiting `RETRY_DELAY_SECS` before each poll after the first.
pub proof fn lemma_unknown_polls_until_budget(attempts_after: u32)
    requires
        1 <= attempts_after <= MAX_ATTEMPTS,
    ensures
        attempts_after < MAX_ATTEMPTS ==> next_step(attempts_after, PollOutcome::Completed { saw_unknown: true })
            == LoopStep::RetryAfter(RETRY_DELAY_SECS),
        attempts_after == MAX_ATTEMPTS ==> next_step(attempts_after, PollOutcome::Completed { saw_unknown: true })
            == LoopStep::Stop,
{
}

/// What a poll of the queue came to.
#[derive(Clone, Copy, Debug, PartialEq, Eq, Structural)]
pub enum PollOutcome {
    /// The snapshot could not be fetched or read.
    FetchFailed,
    /// A pass ran; whether some item was still unknown.
    Completed { saw_unknown: bool },
}

/// What the reconciliation loop does next.
#[derive(Clone, Copy, Debug, PartialEq, Eq, Structural)]
pub enum LoopStep {
    Stop,
    /// Wait this many seconds, then poll again.
    RetryAfter(u64),
}

/// The retry budget of one reconciliation run.
#[derive(Clone, Copy, Debug, PartialEq, Eq, Structural)]
pub struct Reconciler {
    /// Polls made so far.
    pub attempts: u32,
}

pub open spec fn next_step(attempts_after: u32, outcome: PollOutcome) -> LoopStep {
    match outcome {
        PollOutcome::Completed { saw_unknown: true } => if attempts_after < MAX_ATTEMPTS {
            LoopStep::RetryAfter(RETRY_DELAY_SECS)
        } else {
            LoopStep::Stop
        },
        _ => LoopStep::Stop,
    }
}

impl Reconciler {
    pub fn new() -> (r: Reconciler)
        ensures
            r.attempts == 0,
    {
        Reconciler { attempts: 0 }
    }

    /// Records a poll and decides what follows: a pass that saw an unknown
    /// item is retried after `RETRY_DELAY_SECS` while fewer than
    /// `MAX_ATTEMPTS` polls were made; anything else stops the run.
    pub fn after_poll(&mut self, outcome: PollOutcome) -> (r: LoopStep)
        requires
            old(self).attempts < MAX_ATTEMPTS,
        ensures
            final(self).attempts == old(self).attempts + 1,
            r == next_step(final(self).attempts, outcome),
            r is RetryAfter ==> final(self).attempts < MAX_ATTEMPTS,
    {
        self.attempts = self.attempts + 1;
        match outcome {
            PollOutcome::Completed { saw_unknown: true } => {
                if self.attempts < MAX_ATTEMPTS {
                    LoopStep::RetryAfter(RETRY_DELAY_SECS)
                } else {
                    LoopStep::Stop
                }
            },
            _ => LoopStep::Stop,
        }
    }
}

/// However the polls come out, a run polls at most `MAX_ATTEMPTS` times:
/// after `n` polls that each asked for a retry, `n < MAX_ATTEMPTS`.
pub proof fn lemma_retries_bounded(outcomes: Seq<PollOutcome>)
    requires
        forall|k: int| 0 <= k < outcomes.len() ==> next_step((k + 1) as u32, #[trigger] outcomes[k]) is RetryAfter,
        outcomes.len() <= u32::MAX,
    ensures
        outcomes.len() < MAX_ATTEMPTS,
{
    if outcomes.len() >= MAX_ATTEMPTS {
        let k = MAX_ATTEMPTS - 1;
        assert(next_step((k + 1) as u32, outcomes[k as int]) is RetryAfter);
    }
}

} // verus!
