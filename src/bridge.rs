//! Calls into outside crates, each with the contract this library relies on.
use vstd::prelude::*;
use rand::Rng;

verus! {

/// Relies on `rand::thread_rng().gen_range(0..bound)`: a value drawn from the
/// half-open range, which panics only when the range is empty.
#[verifier::external_body]
pub(crate) fn random_below(bound: u64) -> (r: u64)
    requires
        bound > 0,
    ensures
        r < bound,
{
    rand::thread_rng().gen_range(0..bound)
}

/// What `chrono::DateTime::parse_from_rfc3339` makes of a text, as Unix seconds:
/// `None` when the text is not an RFC 3339 date and time.
pub uninterp spec fn rfc3339_seconds(s: Seq<char>) -> Option<i64>;

/// Relies on `chrono::DateTime::parse_from_rfc3339`, read as whole seconds
/// since the Unix epoch with `DateTime::timestamp`; the result depends on the
/// text alone.
#[verifier::external_body]
pub(crate) fn parse_rfc3339(s: &str) -> (r: Option<i64>)
    ensures
        r == rfc3339_seconds(s@),
{
    chrono::DateTime::parse_from_rfc3339(s).ok().map(|d| d.timestamp())
}

/// What `parse_duration::parse` makes of a text, as whole seconds and the
/// nanoseconds beyond them: `None` when the text is not a duration.
pub uninterp spec fn duration_of(s: Seq<char>) -> Option<(u64, u32)>;

/// Relies on `parse_duration::parse`, read with `Duration::as_secs` and
/// `Duration::subsec_nanos` (always below one billion); the result depends on
/// the text alone.
#[verifier::external_body]
pub(crate) fn parse_duration_text(s: &str) -> (r: Option<(u64, u32)>)
    ensures
        r == duration_of(s@),
        r is Some ==> r->Some_0.1 < 1_000_000_000,
{
    parse_duration::parse(s).ok().map(|d| (d.as_secs(), d.subsec_nanos()))
}

/// Relies on `String::push`: appends one character.
#[verifier::external_body]
pub(crate) fn push_char(s: &mut String, c: char)
    ensures
        final(s)@ == old(s)@.push(c),
{
    s.push(c)
}

/// What `str::to_lowercase` makes of a text; the result depends on the text alone.
pub uninterp spec fn lower_of(s: Seq<char>) -> Seq<char>;

/// Relies on `str::to_lowercase`: the lowercase mapping of each character.
#[verifier::external_body]
pub(crate) fn to_lower(s: &str) -> (r: String)
    ensures
        r@ == lower_of(s@),
        s@.len() == 0 ==> r@.len() == 0,
{
    s.to_lowercase()
}

/// What `regex::Regex::captures` finds for `pattern` in `text`: the text of
/// capture group `group` of the leftmost match, or `None` when the pattern
/// does not compile, nothing matches, or the group took no part in the match.
pub uninterp spec fn regex_group(pattern: Seq<char>, text: Seq<char>, group: nat) -> Option<Seq<char>>;

/// Relies on `regex::Regex::new`, `Regex::captures` and `Captures::get`; the
/// result depends on its arguments alone.
#[verifier::external_body]
pub(crate) fn capture_group(pattern: &str, text: &str, group: usize) -> (r: Option<String>)
    ensures
        match r {
            Some(s) => regex_group(pattern@, text@, group as nat) == Some(s@),
            None => regex_group(pattern@, text@, group as nat) is None,
        },
{
    let re = regex::Regex::new(pattern).ok()?;
    re.captures(text)?.get(group).map(|m| m.as_str().to_string())
}

} // verus!
