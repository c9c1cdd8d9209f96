//! Turning a configuration-loading error into a location and a one-line cause.
use vstd::prelude::*;
use vstd::string::*;
use crate::bridge::{capture_group, regex_group};
use crate::text::{
    contains_seq, contains_str, decimal_text, join_seq, join_strings, is_space, is_space_exec, owned, parse_u32, push_decimal,
    push_str, split_seq, split_str, trim, trim_seq, u32_of, views,
};

verus! {

/// Finds `from file '<name>'` (or with double quotes); group 1 is the name.
pub const FILE_PATTERN: &'static str = r#"from file\s+['"]([^'"]+)['"]"#;

/// Finds `line <n>` with an optional `, column <m>`; groups 1 and 2.
pub const LINE_PATTERN: &'static str = r"(?:at\s+)?line\s+(\d+)(?:\s*,\s*column\s+(\d+))?";

/// The cause used when no line of the message serves.
pub const FALLBACK_CAUSE: &'static str = "invalid configuration";

pub const UNKNOWN_LOCATION: &'static str = "unknown location";

/// The name of the file the error message names, if any.
pub fn extract_filename(err_msg: &str) -> (r: Option<String>)
    ensures
        match r {
            Some(f) => regex_group(FILE_PATTERN@, err_msg@, 1) == Some(f@),
            None => regex_group(FILE_PATTERN@, err_msg@, 1) is None,
        },
{
    capture_group(FILE_PATTERN, err_msg, 1)
}

/// Line and column from the captured digits: no line when the line does not
/// read as a `u32`; column 0 when it is absent or does not read as one.
pub open spec fn line_info_of(line: Option<Seq<char>>, col: Option<Seq<char>>) -> Option<(u32, u32)> {
    match line {
        None => None,
        Some(l) => match u32_of(l) {
            None => None,
            Some(n) => Some(
                (
                    n,
                    match col {
                        Some(c) => match u32_of(c) {
                            Some(m) => m,
                            None => 0,
                        },
                        None => 0,
                    },
                ),
            ),
        },
    }
}

pub open spec fn opt_view(s: Option<&str>) -> Option<Seq<char>> {
    match s {
        Some(x) => Some(x@),
        None => None,
    }
}

/// Line and column from the captured digits, as `line_info_of` states.
pub fn line_info_from(line: Option<&str>, col: Option<&str>) -> (r: Option<(u32, u32)>)
    ensures
        r == line_info_of(opt_view(line), opt_view(col)),
{
    match line {
        None => None,
        Some(l) => match parse_u32(l) {
            None => None,
            Some(n) => {
                let m = match col {
                    Some(c) => match parse_u32(c) {
                        Some(m) => m,
                        None => 0,
                    },
                    None => 0,
                };
                Some((n, m))
            },
        },
    }
}

/// Line and column that the error message names, if any.
pub fn extract_line_info(err_msg: &str) -> (r: Option<(u32, u32)>)
    ensures
        r == line_info_of(regex_group(LINE_PATTERN@, err_msg@, 1), regex_group(LINE_PATTERN@, err_msg@, 2)),
{
    let line = capture_group(LINE_PATTERN, err_msg, 1);
    let col = capture_group(LINE_PATTERN, err_msg, 2);
    match (line, col) {
        (None, _) => line_info_from(None, None),
        (Some(l), None) => line_info_from(Some(l.as_str()), None),
        (Some(l), Some(c)) => line_info_from(Some(l.as_str()), Some(c.as_str())),
    }
}

/// The messages of an error chain joined with `": "`.
pub open spec fn joined(ms: Seq<String>) -> Seq<char> {
    join_seq(ms, ": "@)
}

pub open spec fn is_noise(c: char) -> bool {
    is_space(c) || c == '|' || c == '-' || c == ':' || c == '^'
}

/// A trimmed line serves as the cause when it is longer than one byte, not
/// made of white space and `| - : ^` alone, does not begin with `at`, and
/// mentions none of `confique`, `Error`, `from file` and ` = `.
pub open spec fn serves(t: Seq<char>) -> bool {
    &&& t.len() > 0
    &&& !(t.len() == 1 && (t[0] as u32) < 0x80)
    &&& exists|j: int| 0 <= j < t.len() && !is_noise(#[trigger] t[j])
    &&& !contains_seq(t, "confique"@)
    &&& !contains_seq(t, "Error"@)
    &&& !(t.len() >= 2 && t[0] == 'a' && t[1] == 't')
    &&& !contains_seq(t, "from file"@)
    &&& !contains_seq(t, " = "@)
}

/// The first of `lines`, trimmed, that serves.
pub open spec fn first_serving(lines: Seq<Seq<char>>) -> Option<Seq<char>>
    decreases lines.len(),
{
    if lines.len() == 0 {
        None
    } else if serves(trim_seq(lines[0])) {
        Some(trim_seq(lines[0]))
    } else {
        first_serving(lines.skip(1))
    }
}

/// The text after the last `:` when there is one, it is not empty once
/// trimmed and mentions neither `confique` nor `Error`; else `FALLBACK_CAUSE`.
pub open spec fn fallback_cause(full: Seq<char>) -> Seq<char> {
    let parts = split_seq(full, ':');
    let last = trim_seq(parts.last());
    if parts.len() > 1 && last.len() > 0 && !contains_seq(last, "confique"@) && !contains_seq(last, "Error"@) {
        last
    } else {
        FALLBACK_CAUSE@
    }
}

/// The cause of an error message: its first line that serves, else `fallback_cause`.
pub open spec fn cause_of(full: Seq<char>) -> Seq<char> {
    match first_serving(split_seq(full, '\n')) {
        Some(t) => t,
        None => fallback_cause(full),
    }
}

/// Where the error is: `file:line:col`, `file`, `line:col`, or `UNKNOWN_LOCATION`.
pub open spec fn location_of(filename: Option<Seq<char>>, line_info: Option<(u32, u32)>) -> Seq<char> {
    match (filename, line_info) {
        (Some(f), Some(lc)) => f + ":"@ + decimal_text(lc.0 as nat) + ":"@ + decimal_text(lc.1 as nat),
        (Some(f), None) => f,
        (None, Some(lc)) => decimal_text(lc.0 as nat) + ":"@ + decimal_text(lc.1 as nat),
        (None, None) => UNKNOWN_LOCATION@,
    }
}

fn is_noise_exec(c: char) -> (r: bool)
    ensures
        r == is_noise(c),
{
    is_space_exec(c) || c == '|' || c == '-' || c == ':' || c == '^'
}

fn serves_exec(t: &str) -> (r: bool)
    ensures
        r == serves(t@),
{
    let n = t.unicode_len();
    if n == 0 {
        return false;
    }
    if n == 1 && (t.get_char(0) as u32) < 0x80 {
        return false;
    }
    let mut j: usize = 0;
    while j < n && is_noise_exec(t.get_char(j))
        invariant
            n == t@.len(),
            j <= n,
            forall|k: int| 0 <= k < j ==> is_noise(#[trigger] t@[k]),
        decreases n - j,
    {
        j = j + 1;
    }
    if j == n {
        return false;
    }
    if n >= 2 && t.get_char(0) == 'a' && t.get_char(1) == 't' {
        return false;
    }
    !contains_str(t, "confique") && !contains_str(t, "Error") && !contains_str(t, "from file")
        && !contains_str(t, " = ")
}

/// The cause of the error message `full`, as `cause_of` states.
pub fn clean_error(full: &str) -> (r: String)
    ensures
        r@ == cause_of(full@),
{
    let lines = split_str(full, '\n');
    let ghost ls = split_seq(full@, '\n');
    let mut i: usize = 0;
    assert(ls.skip(0) =~= ls);
    while i < lines.len()
        invariant
            ls == split_seq(full@, '\n'),
            views(lines@) == ls,
            i <= lines@.len(),
            first_serving(ls) == first_serving(ls.skip(i as int)),
        decreases lines@.len() - i,
    {
        let t = trim(lines[i].as_str());
        assert(ls.skip(i as int)[0] == lines@[i as int]@);
        assert(ls.skip(i as int).skip(1) =~= ls.skip(i + 1));
        if serves_exec(t) {
            let r = owned(t);
            assert(t@ == trim_seq(ls[i as int]));
            assert(first_serving(ls.skip(i as int)) == Some(trim_seq(ls.skip(i as int)[0])));
            assert(first_serving(ls) == Some(t@));
            assert(cause_of(full@) == t@);
            return r;
        }
        i = i + 1;
    }
    assert(ls.skip(i as int).len() == 0);
    let parts = split_str(full, ':');
    proof {
        crate::text::lemma_split_nonempty(full@, ':');
    }
    let last = trim(parts[parts.len() - 1].as_str());
    assert(views(parts@).last() == parts@[parts@.len() - 1]@);
    assert(first_serving(ls) is None);
    if parts.len() > 1 && last.unicode_len() > 0 && !contains_str(last, "confique") && !contains_str(
        last,
        "Error",
    ) {
        owned(last)
    } else {
        owned(FALLBACK_CAUSE)
    }
}

/// The location text, as `location_of` states.
pub fn location_text(filename: Option<&str>, line_info: Option<(u32, u32)>) -> (r: String)
    ensures
        r@ == location_of(opt_view(filename), line_info),
{
    let mut out = String::new();
    match (filename, line_info) {
        (Some(f), Some((l, c))) => {
            push_str(&mut out, f);
            push_str(&mut out, ":");
            push_decimal(&mut out, l);
            push_str(&mut out, ":");
            push_decimal(&mut out, c);
        },
        (Some(f), None) => {
            push_str(&mut out, f);
        },
        (None, Some((l, c))) => {
            push_decimal(&mut out, l);
            push_str(&mut out, ":");
            push_decimal(&mut out, c);
        },
        (None, None) => {
            push_str(&mut out, UNKNOWN_LOCATION);
        },
    }
    assert(out@ =~= location_of(opt_view(filename), line_info));
    out
}

/// Formats an error for display from the messages of its chain (outermost
/// first): the location that the joined text names, and its cause.
pub fn format_config_error(messages: &Vec<String>) -> (r: (String, String))
    ensures
        r.1@ == cause_of(joined(messages@)),
        ({
            let full = joined(messages@);
            r.0@ == location_of(
                regex_group(FILE_PATTERN@, full, 1),
                line_info_of(regex_group(LINE_PATTERN@, full, 1), regex_group(LINE_PATTERN@, full, 2)),
            )
        }),
{
    let full = join_strings(messages, ": ");
    let filename = extract_filename(full.as_str());
    let line_info = extract_line_info(full.as_str());
    let location = match &filename {
        Some(f) => location_text(Some(f.as_str()), line_info),
        None => location_text(None, line_info),
    };
    (location, clean_error(full.as_str()))
}

} // verus!
