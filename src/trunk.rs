//! Impacted targets listed in a pull request body as `deps=[a,b,c]`.
use vstd::prelude::*;
use crate::bridge::{capture_group, regex_group};
use crate::request::comma_list;
use crate::text::{is_space, lemma_pieces_append, lemma_trim_single, pieces_from, split_seq, trim_seq, push_str, split_trimmed, trimmed_pieces, views};

verus! {

/// The pattern whose first group holds the listed targets.
pub const DEPS_PATTERN: &'static str = r".*deps=\[(.*?)\].*";

/// The targets in a captured list: its comma-separated pieces, trimmed.
pub open spec fn targets_of(list: Seq<char>) -> Seq<Seq<char>> {
    trimmed_pieces(list, ',')
}

/// The targets of a captured list, or none when nothing was captured.
pub fn targets_from_capture(list: Option<&str>) -> (r: Vec<String>)
    ensures
        match list {
            Some(l) => views(r@) == targets_of(l@),
            None => r@.len() == 0,
        },
{
    match list {
        None => Vec::new(),
        Some(l) => split_trimmed(l, ','),
    }
}

/// The targets listed in `pr_body` as `deps=[...]`: the pieces of the first
/// such list, split at commas and trimmed; none when the body has no list.
pub fn get_targets(pr_body: &str) -> (r: Vec<String>)
    ensures
        match regex_group(DEPS_PATTERN@, pr_body@, 1) {
            Some(l) => views(r@) == targets_of(l),
            None => r@.len() == 0,
        },
{
    match capture_group(DEPS_PATTERN, pr_body, 1) {
        Some(l) => targets_from_capture(Some(l.as_str())),
        None => targets_from_capture(None),
    }
}

/// The error reported for a failed call to the service: a known status gets
/// its explanation, any other is shown as `status_text` (the status as the
/// HTTP client prints it); `body` is what the service answered.
pub open spec fn failure_text(status: u16, status_text: Seq<char>, body: Seq<char>) -> Seq<char> {
    if status == 400 {
        "Bad Request (400): "@ + body + ". Check request format and parameters."@
    } else if status == 401 {
        "API key rejected (401 Unauthorized): "@ + body
    } else if status == 403 {
        "API key forbidden (403 Forbidden): "@ + body
    } else if status == 404 {
        "Pull request not found (404 Not Found): "@ + body
    } else if status == 429 {
        "Rate limited (429 Too Many Requests): "@ + body
    } else {
        "HTTP error "@ + status_text + ": "@ + body
    }
}

/// The error reported for a failed call to the service, as `failure_text` states.
pub fn failure_message(status: u16, status_text: &str, body: &str) -> (r: String)
    ensures
        r@ == failure_text(status, status_text@, body@),
{
    let mut out = String::new();
    if status == 400 {
        push_str(&mut out, "Bad Request (400): ");
        push_str(&mut out, body);
        push_str(&mut out, ". Check request format and parameters.");
    } else if status == 401 {
        push_str(&mut out, "API key rejected (401 Unauthorized): ");
        push_str(&mut out, body);
    } else if status == 403 {
        push_str(&mut out, "API key forbidden (403 Forbidden): ");
        push_str(&mut out, body);
    } else if status == 404 {
        push_str(&mut out, "Pull request not found (404 Not Found): ");
        push_str(&mut out, body);
    } else if status == 429 {
        push_str(&mut out, "Rate limited (429 Too Many Requests): ");
        push_str(&mut out, body);
    } else {
        push_str(&mut out, "HTTP error ");
        push_str(&mut out, status_text);
        push_str(&mut out, ": ");
        push_str(&mut out, body);
    }
    assert(out@ =~= failure_text(status, status_text@, body@));
    out
}

proof fn lemma_comma_list_pieces(ls: Seq<char>)
    requires
        ls.len() > 0,
        forall|j: int| 0 <= j < ls.len() ==> #[trigger] ls[j] != ',',
    ensures
        split_seq(comma_list(ls), ',') == ls.map_values(|c: char| seq![c]),
    decreases ls.len(),
{
    if ls.len() == 1 {
        let s = seq![ls[0]];
        assert(comma_list(ls) == s);
        assert(pieces_from(s, ',', 0, 1) == seq![s.subrange(0, 1)]);
        assert(s.subrange(0, 1) =~= s);
        assert(ls.map_values(|c: char| seq![c]) =~= seq![s]);
    } else {
        let init = ls.drop_last();
        assert forall|j: int| 0 <= j < init.len() implies #[trigger] init[j] != ',' by {
            assert(init[j] == ls[j]);
        }
        lemma_comma_list_pieces(init);
        assert(ls.last() != ',') by {
            assert(ls[ls.len() - 1] != ',');
        }
        lemma_pieces_append(comma_list(init), ',', ls.last(), 0, 0);
        assert(ls.map_values(|c: char| seq![c]) =~= init.map_values(|c: char| seq![c]) + seq![seq![ls.last()]]);
    }
}

/// The list that `request::deps_line` writes between `deps=[` and `]` reads
/// back as its letters, one target each, when no letter is a comma or white
/// space.
pub proof fn lemma_deps_list_reads_back(ls: Seq<char>)
    requires
        ls.len() > 0,
        forall|j: int| 0 <= j < ls.len() ==> #[trigger] ls[j] != ',' && !is_space(ls[j]),
    ensures
        targets_of(comma_list(ls)) == ls.map_values(|c: char| seq![c]),
{
    lemma_comma_list_pieces(ls);
    let pieces = split_seq(comma_list(ls), ',');
    assert forall|j: int| 0 <= j < ls.len() implies trim_seq(#[trigger] pieces[j]) == seq![ls[j]] by {
        lemma_trim_single(ls[j]);
    }
    assert(targets_of(comma_list(ls)) =~= ls.map_values(|c: char| seq![c]));
}

} // verus!
