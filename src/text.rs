//! Character-level helpers shared by the parsers.
use vstd::prelude::*;
use vstd::string::*;
use crate::bridge::push_char;
use crate::distribution::{all_digits, digits_in, digits_value};

verus! {

/// Whether `needle` occurs in `hay` starting at `i`.
pub open spec fn occurs_at(hay: Seq<char>, needle: Seq<char>, i: int) -> bool {
    0 <= i && i + needle.len() <= hay.len() && hay.subrange(i, i + needle.len()) == needle
}

/// Whether `needle` occurs anywhere in `hay` (the empty needle always does).
pub open spec fn contains_seq(hay: Seq<char>, needle: Seq<char>) -> bool {
    exists|i: int| occurs_at(hay, needle, i)
}

/// The characters of `s`.
pub fn chars_of(s: &str) -> (r: Vec<char>)
    ensures
        r@ == s@,
{
    let n = s.unicode_len();
    let mut r: Vec<char> = Vec::new();
    let mut i: usize = 0;
    while i < n
        invariant
            n == s@.len(),
            i <= n,
            r@ == s@.take(i as int),
        decreases n - i,
    {
        r.push(s.get_char(i));
        assert(r@ =~= s@.take(i + 1));
        i = i + 1;
    }
    assert(r@ =~= s@);
    r
}

/// Whether `needle` occurs in `hay` at `i`.
fn matches_at(hay: &Vec<char>, needle: &Vec<char>, i: usize) -> (r: bool)
    requires
        i + needle@.len() <= hay@.len(),
    ensures
        r == occurs_at(hay@, needle@, i as int),
{
    let mut k: usize = 0;
    while k < needle.len()
        invariant
            i + needle@.len() <= hay@.len(),
            k <= needle@.len(),
            forall|j: int| 0 <= j < k ==> hay@[i + j] == needle@[j],
            i + needle@.len() <= hay.len(),
        decreases needle@.len() - k,
    {
        if hay[i + k] != needle[k] {
            assert(hay@.subrange(i as int, i + needle@.len())[k as int] != needle@[k as int]);
            return false;
        }
        k = k + 1;
    }
    assert(hay@.subrange(i as int, i + needle@.len()) =~= needle@);
    true
}

/// Whether `needle` occurs in `hay`.
pub fn contains_chars(hay: &Vec<char>, needle: &Vec<char>) -> (r: bool)
    ensures
        r == contains_seq(hay@, needle@),
{
    if needle.len() > hay.len() {
        return false;
    }
    if needle.len() == 0 {
        assert(occurs_at(hay@, needle@, 0)) by {
            assert(hay@.subrange(0, 0) =~= needle@);
        }
        return true;
    }
    let last = hay.len() - needle.len();
    assert(last < usize::MAX);
    let mut i: usize = 0;
    while i <= last
        invariant
            last < usize::MAX,
            last + needle@.len() == hay@.len(),
            needle@.len() >= 1,
            i <= last + 1,
            forall|j: int| 0 <= j < i ==> !occurs_at(hay@, needle@, j),
        decreases last + 1 - i,
    {
        if matches_at(hay, needle, i) {
            return true;
        }
        i = i + 1;
    }
    assert forall|j: int| !occurs_at(hay@, needle@, j) by {
        if 0 <= j <= last {
            assert(j < i);
        }
    }
    false
}

/// Whether `needle` occurs in `hay`.
pub fn contains_str(hay: &str, needle: &str) -> (r: bool)
    ensures
        r == contains_seq(hay@, needle@),
{
    let h = chars_of(hay);
    let n = chars_of(needle);
    contains_chars(&h, &n)
}

/// Index of the first `c` in `s` at or after `i`, or `s.len()` if there is none.
pub open spec fn first_at(s: Seq<char>, c: char, i: int) -> int
    decreases s.len() - i,
{
    if i >= s.len() {
        s.len() as int
    } else if i >= 0 && s[i] == c {
        i
    } else {
        first_at(s, c, i + 1)
    }
}

pub proof fn lemma_first_at(t: Seq<char>, c: char, i: int, k: int)
    requires
        0 <= i <= k <= t.len(),
        forall|j: int| i <= j < k ==> t[j] != c,
        k == t.len() || t[k] == c,
    ensures
        first_at(t, c, i) == k,
    decreases k - i,
{
    if i < k {
        lemma_first_at(t, c, i + 1, k);
    }
}

/// Position of the first `c` in `text[from..to]`, or `to`.
pub fn find_char(text: &str, c: char, from: usize, to: usize) -> (k: usize)
    requires
        from <= to <= text@.len(),
    ensures
        from <= k <= to,
        first_at(text@.subrange(from as int, to as int), c, 0) == k - from,
{
    let mut k = from;
    while k < to && text.get_char(k) != c
        invariant
            from <= k <= to <= text@.len(),
            forall|j: int| from <= j < k ==> text@[j] != c,
        decreases to - k,
    {
        k = k + 1;
    }
    proof {
        let t = text@.subrange(from as int, to as int);
        lemma_first_at(t, c, 0, k - from);
    }
    k
}


/// The characters that have the Unicode `White_Space` property.
pub open spec fn is_space(c: char) -> bool {
    ('\u{9}' <= c && c <= '\u{d}') || c == ' ' || c == '\u{85}' || c == '\u{a0}' || c == '\u{1680}'
        || ('\u{2000}' <= c && c <= '\u{200a}') || c == '\u{2028}' || c == '\u{2029}' || c
        == '\u{202f}' || c == '\u{205f}' || c == '\u{3000}'
}

pub fn is_space_exec(c: char) -> (r: bool)
    ensures
        r == is_space(c),
{
    ('\u{9}' <= c && c <= '\u{d}') || c == ' ' || c == '\u{85}' || c == '\u{a0}' || c == '\u{1680}'
        || ('\u{2000}' <= c && c <= '\u{200a}') || c == '\u{2028}' || c == '\u{2029}' || c
        == '\u{202f}' || c == '\u{205f}' || c == '\u{3000}'
}

/// Index of the first non-space character at or after `i`, or `s.len()`.
pub open spec fn skip_spaces(s: Seq<char>, i: int) -> int
    decreases s.len() - i,
{
    if i >= s.len() {
        s.len() as int
    } else if i >= 0 && is_space(s[i]) {
        skip_spaces(s, i + 1)
    } else {
        i
    }
}

/// One past the last non-space character before `j`, not going below `lo`.
pub open spec fn trim_end_at(s: Seq<char>, j: int, lo: int) -> int
    decreases j - lo,
{
    if j <= lo {
        lo
    } else if 0 < j <= s.len() && is_space(s[j - 1]) {
        trim_end_at(s, j - 1, lo)
    } else {
        j
    }
}

/// `s` without leading and trailing white space.
pub open spec fn trim_seq(s: Seq<char>) -> Seq<char> {
    let a = skip_spaces(s, 0);
    s.subrange(a, trim_end_at(s, s.len() as int, a))
}

/// `s` without leading and trailing white space.
pub fn trim(s: &str) -> (r: &str)
    ensures
        r@ == trim_seq(s@),
{
    let n = s.unicode_len();
    let mut a: usize = 0;
    while a < n && is_space_exec(s.get_char(a))
        invariant
            n == s@.len(),
            a <= n,
            skip_spaces(s@, 0) == skip_spaces(s@, a as int),
        decreases n - a,
    {
        a = a + 1;
    }
    let mut j: usize = n;
    while j > a && is_space_exec(s.get_char(j - 1))
        invariant
            n == s@.len(),
            a <= j <= n,
            skip_spaces(s@, 0) == a,
            trim_end_at(s@, n as int, a as int) == trim_end_at(s@, j as int, a as int),
        decreases j,
    {
        j = j - 1;
    }
    s.substring_char(a, j)
}

/// The pieces of `s` between occurrences of `sep`, from the piece that starts
/// at `start`, scanned up to `i`.
pub open spec fn pieces_from(s: Seq<char>, sep: char, start: int, i: int) -> Seq<Seq<char>>
    decreases s.len() - i,
{
    if i >= s.len() {
        seq![s.subrange(start, s.len() as int)]
    } else if i >= 0 && s[i] == sep {
        seq![s.subrange(start, i)] + pieces_from(s, sep, i + 1, i + 1)
    } else {
        pieces_from(s, sep, start, i + 1)
    }
}

/// The pieces of `s` between occurrences of `sep`; there is always at least one.
pub open spec fn split_seq(s: Seq<char>, sep: char) -> Seq<Seq<char>> {
    pieces_from(s, sep, 0, 0)
}

pub open spec fn views(v: Seq<String>) -> Seq<Seq<char>> {
    v.map_values(|x: String| x@)
}

/// A `String` holding `s`.
pub fn owned(s: &str) -> (r: String)
    ensures
        r@ == s@,
{
    String::from_str(s)
}

/// The pieces of `s` between occurrences of `sep`.
pub fn split_str(s: &str, sep: char) -> (r: Vec<String>)
    ensures
        views(r@) == split_seq(s@, sep),
{
    let n = s.unicode_len();
    let mut out: Vec<String> = Vec::new();
    let mut start: usize = 0;
    let mut i: usize = 0;
    assert(views(out@) =~= Seq::<Seq<char>>::empty());
    loop
        invariant
            n == s@.len(),
            start <= i <= n,
            split_seq(s@, sep) == views(out@) + pieces_from(s@, sep, start as int, i as int),
        decreases n - i,
    {
        if i == n || s.get_char(i) == sep {
            let piece = owned(s.substring_char(start, i));
            let ghost before = out@;
            out.push(piece);
            assert(views(out@) =~= views(before).push(piece@));
            if i == n {
                assert(views(out@) =~= views(before) + seq![piece@]);
                return out;
            }
            assert(views(before) + (seq![piece@] + pieces_from(s@, sep, i + 1, i + 1)) =~= views(out@)
                + pieces_from(s@, sep, i + 1, i + 1));
            start = i + 1;
            i = i + 1;
        } else {
            i = i + 1;
        }
    }
}

/// The number written by `s` when it is one or more ASCII digits and fits in `u32`.
pub open spec fn u32_of(s: Seq<char>) -> Option<u32> {
    if s.len() > 0 && all_digits(s) && digits_value(s) <= u32::MAX {
        Some(digits_value(s) as u32)
    } else {
        None
    }
}

/// The number written by `s`, as `u32_of` states.
pub fn parse_u32(s: &str) -> (r: Option<u32>)
    ensures
        r == u32_of(s@),
{
    let n = s.unicode_len();
    assert(s@.subrange(0, n as int) =~= s@);
    let (ok, v) = digits_in(s, 0, n, u32::MAX as u128 + 1);
    if n == 0 || !ok || v > u32::MAX as u128 {
        None
    } else {
        Some(v as u32)
    }
}

pub open spec fn digit_char(d: nat) -> char {
    ((d + 48) as u8) as char
}

/// The decimal digits of `n`, most significant first, without leading zeros.
pub open spec fn decimal_text(n: nat) -> Seq<char>
    decreases n,
{
    if n < 10 {
        seq![digit_char(n)]
    } else {
        decimal_text(n / 10).push(digit_char(n % 10))
    }
}

/// Appends the decimal digits of `n` to `s`.
pub fn push_decimal(s: &mut String, n: u32)
    ensures
        final(s)@ == old(s)@ + decimal_text(n as nat),
    decreases n,
{
    if n >= 10 {
        push_decimal(s, n / 10);
    }
    let d = (n % 10) as u8;
    push_char(s, (d + 48) as char);
    proof {
        if n >= 10 {
            assert(decimal_text(n as nat) == decimal_text((n / 10) as nat).push(digit_char((n % 10) as nat)));
        }
    }
    assert(s@ =~= old(s)@ + decimal_text(n as nat));
}

/// Appends `t` to `s`.
pub fn push_str(s: &mut String, t: &str)
    ensures
        final(s)@ == old(s)@ + t@,
{
    s.append(t);
}

/// No occurrence of `c` at or after `i` lies before the first one.
pub proof fn lemma_first_at_least(s: Seq<char>, c: char, i: int, w: int)
    requires
        0 <= i <= w < s.len(),
        s[w] == c,
    ensures
        first_at(s, c, i) <= w,
    decreases w - i,
{
    if i < w && s[i] != c {
        lemma_first_at_least(s, c, i + 1, w);
    }
}

/// The first `c` of `s` from `from` on, found in `s[from..]` at `e - from`.
pub proof fn lemma_first_at_shift(s: Seq<char>, c: char, from: int, e: int)
    requires
        0 <= from <= e <= s.len(),
        first_at(s.subrange(from, s.len() as int), c, 0) == e - from,
    ensures
        first_at(s, c, from) == e,
{
    let t = s.subrange(from, s.len() as int);
    lemma_first_at_props(t, c, 0);
    assert forall|j: int| from <= j < e implies s[j] != c by {
        assert(s[j] == t[j - from]);
    }
    if e < s.len() {
        assert(s[e] == t[e - from]);
    }
    lemma_first_at(s, c, from, e);
}

/// `first_at` finds no `c` before its result, and `c` at it (unless at the end).
pub proof fn lemma_first_at_props(s: Seq<char>, c: char, i: int)
    requires
        0 <= i <= s.len(),
    ensures
        i <= first_at(s, c, i) <= s.len(),
        forall|j: int| i <= j < first_at(s, c, i) ==> s[j] != c,
        first_at(s, c, i) < s.len() ==> s[first_at(s, c, i)] == c,
    decreases s.len() - i,
{
    if i < s.len() && s[i] != c {
        lemma_first_at_props(s, c, i + 1);
    }
}

/// Splitting yields at least one piece.
pub proof fn lemma_split_nonempty(s: Seq<char>, sep: char)
    ensures
        split_seq(s, sep).len() >= 1,
{
    lemma_pieces_nonempty(s, sep, 0, 0);
}

proof fn lemma_pieces_nonempty(s: Seq<char>, sep: char, start: int, i: int)
    ensures
        pieces_from(s, sep, start, i).len() >= 1,
    decreases s.len() - i,
{
    if i < s.len() {
        if i >= 0 && s[i] == sep {
            lemma_pieces_nonempty(s, sep, i + 1, i + 1);
        } else {
            lemma_pieces_nonempty(s, sep, start, i + 1);
        }
    }
}

/// The views of `ws` joined with `sep` between neighbours.
pub open spec fn join_seq(ws: Seq<String>, sep: Seq<char>) -> Seq<char>
    decreases ws.len(),
{
    if ws.len() == 0 {
        Seq::empty()
    } else if ws.len() == 1 {
        ws[0]@
    } else {
        join_seq(ws.drop_last(), sep) + sep + ws.last()@
    }
}

/// `ws` joined with `sep` between neighbours.
pub fn join_strings(ws: &Vec<String>, sep: &str) -> (r: String)
    ensures
        r@ == join_seq(ws@, sep@),
{
    let mut out = String::new();
    let mut i: usize = 0;
    while i < ws.len()
        invariant
            i <= ws@.len(),
            out@ == join_seq(ws@.take(i as int), sep@),
        decreases ws@.len() - i,
    {
        let ghost prefix = ws@.take(i + 1);
        assert(prefix.drop_last() =~= ws@.take(i as int));
        if i > 0 {
            push_str(&mut out, sep);
        }
        push_str(&mut out, ws[i].as_str());
        proof {
            if i == 0 {
                assert(out@ =~= prefix[0]@);
            }
        }
        i = i + 1;
    }
    assert(ws@.take(i as int) =~= ws@);
    out
}

/// The pieces of `s` between occurrences of `sep`, each trimmed.
pub open spec fn trimmed_pieces(s: Seq<char>, sep: char) -> Seq<Seq<char>> {
    split_seq(s, sep).map_values(|p: Seq<char>| trim_seq(p))
}

/// The pieces of `s` between occurrences of `sep`, each trimmed.
pub fn split_trimmed(s: &str, sep: char) -> (r: Vec<String>)
    ensures
        views(r@) == trimmed_pieces(s@, sep),
{
    let pieces = split_str(s, sep);
    let mut out: Vec<String> = Vec::new();
    let mut i: usize = 0;
    while i < pieces.len()
        invariant
            i <= pieces@.len(),
            views(pieces@) == split_seq(s@, sep),
            views(out@) == split_seq(s@, sep).take(i as int).map_values(|p: Seq<char>| trim_seq(p)),
        decreases pieces@.len() - i,
    {
        let t = owned(trim(pieces[i].as_str()));
        let ghost before = out@;
        out.push(t);
        assert(views(out@) =~= views(before).push(t@));
        assert(views(pieces@)[i as int] == pieces@[i as int]@);
        assert(split_seq(s@, sep).take(i + 1).map_values(|p: Seq<char>| trim_seq(p)) =~= split_seq(
            s@,
            sep,
        ).take(i as int).map_values(|p: Seq<char>| trim_seq(p)).push(trim_seq(pieces@[i as int]@)));
        i = i + 1;
    }
    assert(split_seq(s@, sep).take(i as int) =~= split_seq(s@, sep));
    out
}

/// Appending `sep` and one other character to `y` adds that character as a
/// piece of its own.
pub proof fn lemma_pieces_append(y: Seq<char>, sep: char, c: char, start: int, i: int)
    requires
        0 <= start <= i <= y.len(),
        c != sep,
    ensures
        pieces_from(y.push(sep).push(c), sep, start, i) == pieces_from(y, sep, start, i) + seq![seq![c]],
    decreases y.len() - i,
{
    let x = y.push(sep).push(c);
    if i == y.len() {
        assert(x[i] == sep);
        assert(x[i + 1] == c);
        assert(pieces_from(x, sep, i + 1, i + 2) == seq![x.subrange(i + 1, x.len() as int)]);
        assert(pieces_from(x, sep, i + 1, i + 1) == pieces_from(x, sep, i + 1, i + 2));
        assert(pieces_from(x, sep, start, i) == seq![x.subrange(start, i)] + pieces_from(x, sep, i + 1, i + 1));
        assert(pieces_from(y, sep, start, i) == seq![y.subrange(start, y.len() as int)]);
        assert(x.subrange(i + 1, x.len() as int) =~= seq![c]);
        assert(x.subrange(start, i) =~= y.subrange(start, y.len() as int));
        assert(seq![x.subrange(start, i)] + seq![seq![c]] =~= seq![y.subrange(start, y.len() as int)] + seq![
            seq![c],
        ]);
    } else {
        assert(x[i] == y[i]);
        if y[i] == sep {
            lemma_pieces_append(y, sep, c, i + 1, i + 1);
            assert(x.subrange(start, i) =~= y.subrange(start, i));
            assert(seq![x.subrange(start, i)] + (pieces_from(y, sep, i + 1, i + 1) + seq![seq![c]]) =~= (seq![
                y.subrange(start, i),
            ] + pieces_from(y, sep, i + 1, i + 1)) + seq![seq![c]]);
        } else {
            lemma_pieces_append(y, sep, c, start, i + 1);
        }
    }
}

/// A character that is not white space is its own trimmed text.
pub proof fn lemma_trim_single(c: char)
    requires
        !is_space(c),
    ensures
        trim_seq(seq![c]) == seq![c],
{
    let s = seq![c];
    assert(skip_spaces(s, 0) == 0);
    assert(trim_end_at(s, 1, 0) == 1);
    assert(s.subrange(0, 1) =~= s);
}

} // verus!
