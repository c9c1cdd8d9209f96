//! The text of a generated pull request: branch, commit message, title and
//! the `deps=[...]` line that lists the impacted targets.
use vstd::prelude::*;
use crate::text::{join_seq, join_strings, owned, push_str, trim, trim_seq};
use crate::bridge::{capture_group, push_char, regex_group};

verus! {

/// The first letters of `words`, each once.
pub open spec fn letters(words: Seq<String>) -> Set<char> {
    Set::new(|c: char| exists|i: int| 0 <= i < words.len() && (#[trigger] words[i])@[0] == c)
}

pub open spec fn strictly_sorted(s: Seq<char>) -> bool {
    forall|j: int, k: int| 0 <= j < k < s.len() ==> s[j] < s[k]
}

/// The first letters of `words` in increasing order, without repeats.
pub fn first_letters(words: &Vec<String>) -> (r: Vec<char>)
    requires
        forall|i: int| 0 <= i < words@.len() ==> (#[trigger] words@[i])@.len() > 0,
    ensures
        strictly_sorted(r@),
        r@.to_set() == letters(words@),
{
    let mut out: Vec<char> = Vec::new();
    let mut i: usize = 0;
    while i < words.len()
        invariant
            i <= words@.len(),
            forall|i: int| 0 <= i < words@.len() ==> (#[trigger] words@[i])@.len() > 0,
            strictly_sorted(out@),
            out@.to_set() == letters(words@.take(i as int)),
        decreases words@.len() - i,
    {
        let c = words[i].as_str().get_char(0);
        let mut k: usize = 0;
        while k < out.len() && out[k] < c
            invariant
                k <= out@.len(),
                forall|j: int| 0 <= j < k ==> out@[j] < c,
            decreases out@.len() - k,
        {
            k = k + 1;
        }
        let ghost before = out@;
        if k == out.len() || out[k] != c {
            out.insert(k, c);
            assert(strictly_sorted(out@)) by {
                assert forall|j: int, m: int| 0 <= j < m < out@.len() implies out@[j] < out@[m] by {
                    if m < k {
                    } else if m == k {
                    } else if j < k {
                        assert(out@[m] == before[m - 1]);
                        if k < before.len() {
                            assert(before[k as int] > c);
                            if m - 1 > k {
                                assert(before[k as int] < before[m - 1]);
                            }
                        }
                    } else if j == k {
                        assert(out@[m] == before[m - 1]);
                        assert(before[k as int] > c) by {
                            assert(before[k as int] >= c);
                        }
                        if m - 1 > k {
                            assert(before[k as int] < before[m - 1]);
                        }
                    } else {
                        assert(out@[j] == before[j - 1]);
                        assert(out@[m] == before[m - 1]);
                    }
                }
            }
            assert(out@.to_set() =~= before.to_set().insert(c)) by {
                assert forall|x: char| out@.to_set().contains(x) implies before.to_set().insert(c).contains(x) by {
                    let j = choose|j: int| 0 <= j < out@.len() && out@[j] == x;
                    if j < k {
                        assert(before[j] == x);
                    } else if j > k {
                        assert(before[j - 1] == x);
                    }
                }
                assert forall|x: char| before.to_set().insert(c).contains(x) implies out@.to_set().contains(x) by {
                    if x == c {
                        assert(out@[k as int] == c);
                    } else {
                        let j = choose|j: int| 0 <= j < before.len() && before[j] == x;
                        if j < k {
                            assert(out@[j] == x);
                        } else {
                            assert(out@[j + 1] == x);
                        }
                    }
                }
            }
        } else {
            assert(out@.to_set().contains(c)) by {
                assert(out@[k as int] == c);
            }
            assert(out@.to_set() =~= before.to_set().insert(c));
        }
        assert(letters(words@.take(i + 1)) =~= letters(words@.take(i as int)).insert(c)) by {
            let ws = words@.take(i + 1);
            assert(ws[i as int] == words@[i as int]);
            assert forall|x: char| letters(ws).contains(x) implies letters(words@.take(i as int)).insert(c).contains(x) by {
                let j = choose|j: int| 0 <= j < ws.len() && (#[trigger] ws[j])@[0] == x;
                if j < i {
                    assert(words@.take(i as int)[j] == ws[j]);
                }
            }
            assert forall|x: char| letters(words@.take(i as int)).insert(c).contains(x) implies letters(ws).contains(x) by {
                if x == c {
                    assert(ws[i as int]@[0] == c);
                } else {
                    let j = choose|j: int| 0 <= j < i && (#[trigger] words@.take(i as int)[j])@[0] == x;
                    assert(ws[j] == words@.take(i as int)[j]);
                }
            }
        }
        i = i + 1;
    }
    assert(words@.take(i as int) =~= words@);
    out
}

/// The `deps=[...]` line: the first letters of `words`, in increasing order
/// and each once, separated by commas.
pub fn deps_line(words: &Vec<String>) -> (r: String)
    requires
        forall|i: int| 0 <= i < words@.len() ==> (#[trigger] words@[i])@.len() > 0,
    ensures
        exists|ls: Seq<char>| strictly_sorted(ls) && ls.to_set() == letters(words@) && r@ == "deps=["@ + comma_list(ls) + "]"@,
{
    let ls = first_letters(words);
    let mut out = owned("deps=[");
    let mut i: usize = 0;
    while i < ls.len()
        invariant
            i <= ls@.len(),
            out@ == "deps=["@ + comma_list(ls@.take(i as int)),
        decreases ls@.len() - i,
    {
        assert(ls@.take(i + 1).drop_last() =~= ls@.take(i as int));
        if i > 0 {
            push_char(&mut out, ',');
        }
        push_char(&mut out, ls[i]);
        assert(out@ =~= "deps=["@ + comma_list(ls@.take(i + 1)));
        i = i + 1;
    }
    assert(ls@.take(i as int) =~= ls@);
    push_str(&mut out, "]");
    out
}

/// Characters separated by commas.
pub open spec fn comma_list(ls: Seq<char>) -> Seq<char>
    decreases ls.len(),
{
    if ls.len() == 0 {
        Seq::empty()
    } else if ls.len() == 1 {
        seq![ls[0]]
    } else {
        comma_list(ls.drop_last()).push(',').push(ls.last())
    }
}

/// The branch of a request that changes `words`: `change/` and the words joined with `-`.
pub fn branch_name(words: &Vec<String>) -> (r: String)
    ensures
        r@ == "change/"@ + join_seq(words@, "-"@),
{
    let mut out = owned("change/");
    let joined = join_strings(words, "-");
    push_str(&mut out, joined.as_str());
    out
}

/// The commit message: `Moving words ` and the words joined with `, `.
pub fn commit_message(words: &Vec<String>) -> (r: String)
    ensures
        r@ == "Moving words "@ + join_seq(words@, ", "@),
{
    let mut out = owned("Moving words ");
    let joined = join_strings(words, ", ");
    push_str(&mut out, joined.as_str());
    out
}

/// The title: the words joined with `, `, marked when the request carries a logical conflict.
pub fn title(words: &Vec<String>, logical_conflict: bool) -> (r: String)
    ensures
        !logical_conflict ==> r@ == join_seq(words@, ", "@),
        logical_conflict ==> r@ == join_seq(words@, ", "@) + " (logical-conflict)"@,
{
    let mut out = join_strings(words, ", ");
    if logical_conflict {
        push_str(&mut out, " (logical-conflict)");
    }
    out
}

/// A pull request URL ends in `/pull/<number>`; group 2 is the number.
pub const PR_URL_PATTERN: &'static str = r"(.*)/pull/(\d+)$";

/// The number of the pull request that `url` (trimmed) links to, when it ends
/// in `/pull/<number>`.
pub fn pr_number_from_url(url: &str) -> (r: Option<String>)
    ensures
        match r {
            Some(n) => regex_group(PR_URL_PATTERN@, trim_seq(url@), 2) == Some(n@),
            None => regex_group(PR_URL_PATTERN@, trim_seq(url@), 2) is None,
        },
{
    capture_group(PR_URL_PATTERN, trim(url), 2)
}

} // verus!
