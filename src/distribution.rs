//! Weighted dependency-count distributions: the configuration grammar
//! `<probability>x<count>,...` and the deterministic sampler over it.
use vstd::prelude::*;
use vstd::string::*;
use crate::text::{find_char, first_at};

verus! {

/// Probability units per 1.0: probabilities are kept exactly to nine decimals.
pub const SCALE: u64 = 1_000_000_000;

/// Tolerance, in probability units, of the check that weights sum to 1.0.
pub const EPSILON: u64 = 1_000_000;

/// Request indices repeat their draw every `WINDOW` requests.
pub const WINDOW: u64 = 1000;

/// How many files one bucket asks for.
#[derive(Clone, Copy, Debug, PartialEq, Eq, Structural)]
pub enum Count {
    /// All files that are available.
    All,
    /// A fixed, positive number of files (clamped to what is available).
    Fixed(usize),
}

/// One `<probability>x<count>` token: `weight` is the probability in units of `1 / SCALE`.
#[derive(Clone, Copy, Debug, PartialEq, Eq, Structural)]
pub struct Bucket {
    pub weight: u64,
    pub count: Count,
}

/// Why a distribution string was rejected.
#[derive(Clone, Copy, Debug, PartialEq, Eq, Structural)]
pub enum DistributionError {
    /// The string is empty.
    Empty,
    /// A token has no `x` between probability and count.
    MissingSeparator,
    /// The probability is not a decimal number.
    BadProbability,
    /// The probability is zero or greater than one.
    ProbabilityOutOfRange,
    /// The count is neither `ALL` nor a number that fits in `usize`.
    BadCount,
    /// The count is zero.
    ZeroCount,
    /// The probabilities do not sum to 1.0 within `EPSILON`.
    BadSum,
}

/// An ordered, non-empty list of buckets whose weights sum to about one.
#[derive(Debug)]
pub struct DistributionSpec {
    pub buckets: Vec<Bucket>,
}

// ---------------------------------------------------------------------------
// The grammar, as spec functions over characters.

pub open spec fn is_digit(c: char) -> bool {
    '0' <= c && c <= '9'
}

pub open spec fn digit_value(c: char) -> int {
    c as int - '0' as int
}

pub open spec fn all_digits(s: Seq<char>) -> bool {
    forall|j: int| 0 <= j < s.len() ==> is_digit(#[trigger] s[j])
}

/// The number written by the decimal digits `s` (most significant first).
pub open spec fn digits_value(s: Seq<char>) -> nat
    decreases s.len(),
{
    if s.len() == 0 {
        0
    } else {
        (digits_value(s.drop_last()) * 10 + digit_value(s.last())) as nat
    }
}

pub open spec fn pow10(n: nat) -> nat
    decreases n,
{
    if n == 0 {
        1
    } else {
        10 * pow10((n - 1) as nat)
    }
}

/// Fraction digits as probability units: the first nine digits count, the rest are dropped.
pub open spec fn fraction_units(f: Seq<char>) -> nat {
    let n = if f.len() < 9 { f.len() } else { 9 };
    digits_value(f.take(n as int)) * pow10((9 - n) as nat)
}

/// A decimal `D*[.D*]` with at least one digit, in probability units.
pub open spec fn decimal_units(p: Seq<char>) -> Option<nat> {
    let d = first_at(p, '.', 0);
    let int_part = p.take(d);
    let frac = if d < p.len() { p.skip(d + 1) } else { Seq::<char>::empty() };
    if all_digits(int_part) && all_digits(frac) && int_part.len() + frac.len() > 0 {
        Some(digits_value(int_part) * (SCALE as nat) + fraction_units(frac))
    } else {
        None
    }
}

/// `ALL`, or a positive decimal integer that fits in `usize`.
pub open spec fn count_of(c: Seq<char>) -> Result<Count, DistributionError> {
    if c == seq!['A', 'L', 'L'] {
        Ok(Count::All)
    } else if c.len() == 0 || !all_digits(c) || digits_value(c) > usize::MAX {
        Err(DistributionError::BadCount)
    } else if digits_value(c) == 0 {
        Err(DistributionError::ZeroCount)
    } else {
        Ok(Count::Fixed(digits_value(c) as usize))
    }
}

/// One token `<probability>x<count>`, split at its first `x`.
pub open spec fn bucket_of(t: Seq<char>) -> Result<Bucket, DistributionError> {
    let k = first_at(t, 'x', 0);
    if k >= t.len() {
        Err(DistributionError::MissingSeparator)
    } else {
        match decimal_units(t.take(k)) {
            None => Err(DistributionError::BadProbability),
            Some(u) => if u == 0 || u > SCALE {
                Err(DistributionError::ProbabilityOutOfRange)
            } else {
                match count_of(t.skip(k + 1)) {
                    Err(e) => Err(e),
                    Ok(c) => Ok(Bucket { weight: u as u64, count: c }),
                }
            },
        }
    }
}

pub open spec fn prepend(
    bs: Seq<Bucket>,
    r: Result<Seq<Bucket>, DistributionError>,
) -> Result<Seq<Bucket>, DistributionError> {
    match r {
        Ok(rest) => Ok(bs + rest),
        Err(e) => Err(e),
    }
}

/// The comma-separated tokens of `s` from the token that starts at `start`,
/// scanned up to `i`: the first failing token decides the error.
pub open spec fn buckets_from(s: Seq<char>, start: int, i: int) -> Result<
    Seq<Bucket>,
    DistributionError,
>
    decreases s.len() - i,
{
    if i >= s.len() || (i >= 0 && s[i] == ',') {
        match bucket_of(s.subrange(start, if i >= s.len() { s.len() as int } else { i })) {
            Err(e) => Err(e),
            Ok(b) => if i >= s.len() {
                Ok(seq![b])
            } else {
                prepend(seq![b], buckets_from(s, i + 1, i + 1))
            },
        }
    } else {
        buckets_from(s, start, i + 1)
    }
}

pub open spec fn total_weight(bs: Seq<Bucket>) -> nat
    decreases bs.len(),
{
    if bs.len() == 0 {
        0
    } else {
        total_weight(bs.drop_last()) + bs.last().weight as nat
    }
}

pub open spec fn sums_to_one(bs: Seq<Bucket>) -> bool {
    SCALE - EPSILON <= total_weight(bs) <= SCALE + EPSILON
}

/// What a distribution string denotes: its buckets in declared order, or the first error.
pub open spec fn parse_spec(s: Seq<char>) -> Result<Seq<Bucket>, DistributionError> {
    if s.len() == 0 {
        Err(DistributionError::Empty)
    } else {
        match buckets_from(s, 0, 0) {
            Err(e) => Err(e),
            Ok(bs) => if sums_to_one(bs) {
                Ok(bs)
            } else {
                Err(DistributionError::BadSum)
            },
        }
    }
}

impl DistributionSpec {
    pub open spec fn view(&self) -> Seq<Bucket> {
        self.buckets@
    }

    /// Every parsed distribution has these properties.
    pub open spec fn wf(&self) -> bool {
        &&& self.buckets@.len() > 0
        &&& forall|j: int|
            0 <= j < self.buckets@.len() ==> 0 < (#[trigger] self.buckets@[j]).weight <= SCALE
        &&& forall|j: int|
            0 <= j < self.buckets@.len() ==> (#[trigger] self.buckets@[j]).count != Count::Fixed(0)
        &&& sums_to_one(self.buckets@)
    }
}


// ---------------------------------------------------------------------------
// Lemmas on the grammar.

proof fn lemma_digits_below(s: Seq<char>)
    requires
        all_digits(s),
    ensures
        digits_value(s) < pow10(s.len()),
    decreases s.len(),
{
    if s.len() > 0 {
        let init = s.drop_last();
        assert(all_digits(init)) by {
            assert forall|j: int| 0 <= j < init.len() implies is_digit(#[trigger] init[j]) by {
                assert(init[j] == s[j]);
            }
        }
        lemma_digits_below(init);
        assert(is_digit(s[s.len() - 1]));
        let v = digits_value(init);
        let p = pow10(init.len());
        assert(pow10(s.len()) == 10 * p);
        assert(v * 10 + digit_value(s.last()) < 10 * p) by (nonlinear_arith)
            requires
                v < p,
                0 <= digit_value(s.last()) <= 9,
        ;
    }
}

proof fn lemma_pow10_positive(n: nat)
    ensures
        pow10(n) >= 1,
    decreases n,
{
    if n > 0 {
        lemma_pow10_positive((n - 1) as nat);
    }
}

proof fn lemma_pow10_add(a: nat, b: nat)
    ensures
        pow10(a + b) == pow10(a) * pow10(b),
    decreases a,
{
    if a > 0 {
        lemma_pow10_add((a - 1) as nat, b);
        assert(pow10(a + b) == 10 * pow10((a - 1 + b) as nat));
        let x = pow10((a - 1) as nat);
        let y = pow10(b);
        assert(pow10(a) == 10 * x);
        assert(10 * (x * y) == (10 * x) * y) by (nonlinear_arith);
    } else {
        assert(pow10(a) == 1);
        assert(a + b == b);
    }
}

proof fn lemma_pow10_nine(n: nat)
    requires
        n <= 9,
    ensures
        pow10(n) <= SCALE,
        pow10((9 - n) as nat) <= SCALE,
        pow10(n) * pow10((9 - n) as nat) == SCALE,
{
    reveal_with_fuel(pow10, 10);
    lemma_pow10_add(n, (9 - n) as nat);
    assert(pow10(9) == SCALE);
    lemma_pow10_positive(n);
    lemma_pow10_positive((9 - n) as nat);
    let x = pow10(n);
    let y = pow10((9 - n) as nat);
    assert(x <= x * y && y <= x * y) by (nonlinear_arith)
        requires
            x >= 1,
            y >= 1,
    ;
}

// ---------------------------------------------------------------------------
// Executable parsing.

/// Whether `text[from..to]` is all decimal digits and, if it is, their value capped at `cap`.
pub(crate) fn digits_in(text: &str, from: usize, to: usize, cap: u128) -> (r: (bool, u128))
    requires
        from <= to <= text@.len(),
        cap <= u64::MAX as u128 + 1,
    ensures
        r.0 == all_digits(text@.subrange(from as int, to as int)),
        r.0 ==> r.1 == if digits_value(text@.subrange(from as int, to as int)) < cap {
            digits_value(text@.subrange(from as int, to as int)) as int
        } else {
            cap as int
        },
{
    let ghost s = text@;
    let mut acc: u128 = 0;
    let mut i = from;
    while i < to
        invariant
            from <= i <= to <= s.len(),
            s == text@,
            cap <= u64::MAX as u128 + 1,
            all_digits(s.subrange(from as int, i as int)),
            acc == if digits_value(s.subrange(from as int, i as int)) < cap {
                digits_value(s.subrange(from as int, i as int)) as int
            } else {
                cap as int
            },
        decreases to - i,
    {
        let c = text.get_char(i);
        let ghost prev = s.subrange(from as int, i as int);
        let ghost next = s.subrange(from as int, i + 1);
        assert(next.drop_last() =~= prev);
        if !('0' <= c && c <= '9') {
            assert(!all_digits(s.subrange(from as int, to as int))) by {
                assert(s.subrange(from as int, to as int)[i - from] == c);
            }
            return (false, 0);
        }
        let d = (c as u32 - '0' as u32) as u128;
        let v = acc * 10 + d;
        let ghost full = digits_value(prev);
        assert(digits_value(next) == full * 10 + d);
        proof {
            if full >= cap {
                assert(full * 10 + d >= cap) by (nonlinear_arith)
                    requires
                        full >= cap,
                        d >= 0,
                ;
            }
        }
        acc = if v < cap { v } else { cap };
        assert(all_digits(next)) by {
            assert forall|j: int| 0 <= j < next.len() implies is_digit(#[trigger] next[j]) by {
                if j < prev.len() {
                    assert(next[j] == prev[j]);
                }
            }
        }
        i = i + 1;
    }
    (true, acc)
}

/// `10^n` for `n <= 9`.
fn pow10_small(n: usize) -> (r: u128)
    requires
        n <= 9,
    ensures
        r == pow10(n as nat),
{
    let mut r: u128 = 1;
    let mut i: usize = 0;
    while i < n
        invariant
            i <= n <= 9,
            r == pow10(i as nat),
        decreases n - i,
    {
        proof {
            lemma_pow10_nine(i as nat);
        }
        r = r * 10;
        i = i + 1;
    }
    r
}

/// The probability `text[from..to]` in units, or `None` if it is not a decimal.
fn decimal_in(text: &str, from: usize, to: usize) -> (r: Option<u128>)
    requires
        from <= to <= text@.len(),
    ensures
        match decimal_units(text@.subrange(from as int, to as int)) {
            None => r is None,
            Some(u) => r is Some && (u <= SCALE ==> r->Some_0 == u) && (u > SCALE
                ==> r->Some_0 > SCALE),
        },
{
    let ghost s = text@;
    let ghost p = s.subrange(from as int, to as int);
    let d = find_char(text, '.', from, to);
    let frac_from = if d < to { d + 1 } else { to };
    let ghost int_part = p.take(d - from);
    let ghost frac = if d < to { p.skip(d - from + 1) } else { Seq::<char>::empty() };
    assert(int_part =~= s.subrange(from as int, d as int));
    assert(frac =~= s.subrange(frac_from as int, to as int));
    let (int_ok, int_val) = digits_in(text, from, d, 2);
    let (frac_ok, _) = digits_in(text, frac_from, to, 0);
    if !int_ok || !frac_ok || (d == from && frac_from == to) {
        return None;
    }
    let n = if to - frac_from < 9 { to - frac_from } else { 9 };
    let ghost shown = frac.take(n as int);
    assert(shown =~= s.subrange(frac_from as int, (frac_from + n) as int));
    assert(all_digits(shown)) by {
        assert forall|j: int| 0 <= j < shown.len() implies is_digit(#[trigger] shown[j]) by {
            assert(shown[j] == frac[j]);
        }
    }
    proof {
        lemma_digits_below(shown);
        lemma_pow10_nine(n as nat);
    }
    let (_, shown_val) = digits_in(text, frac_from, frac_from + n, u64::MAX as u128 + 1);
    let scale = pow10_small(9 - n);
    assert(shown_val * scale <= SCALE * SCALE) by (nonlinear_arith)
        requires
            shown_val <= SCALE,
            scale <= SCALE,
    ;
    let frac_units = shown_val * scale;
    assert(frac_units == fraction_units(frac));
    assert(frac_units < SCALE) by (nonlinear_arith)
        requires
            shown_val < pow10(n as nat),
            frac_units == shown_val * scale,
            scale == pow10((9 - n) as nat),
            pow10(n as nat) * pow10((9 - n) as nat) == SCALE,
    ;
    if int_val >= 2 {
        return Some(2 * SCALE as u128);
    }
    Some(int_val * SCALE as u128 + frac_units)
}

/// The count `text[from..to]`.
fn count_in(text: &str, from: usize, to: usize) -> (r: Result<Count, DistributionError>)
    requires
        from <= to <= text@.len(),
    ensures
        r == count_of(text@.subrange(from as int, to as int)),
{
    let ghost c = text@.subrange(from as int, to as int);
    proof {
        reveal_strlit("ALL");
    }
    if to - from == 3 && text.get_char(from) == 'A' && text.get_char(from + 1) == 'L'
        && text.get_char(from + 2) == 'L' {
        assert(c =~= seq!['A', 'L', 'L']);
        return Ok(Count::All);
    }
    assert(c != seq!['A', 'L', 'L']) by {
        if c.len() == 3 {
            assert(c[0] == text@[from as int]);
            assert(c[1] == text@[from + 1]);
            assert(c[2] == text@[from + 2]);
        }
    }
    let (ok, v) = digits_in(text, from, to, usize::MAX as u128 + 1);
    if to == from || !ok || v > usize::MAX as u128 {
        return Err(DistributionError::BadCount);
    }
    if v == 0 {
        return Err(DistributionError::ZeroCount);
    }
    Ok(Count::Fixed(v as usize))
}

/// The token `text[from..to]`.
fn bucket_in(text: &str, from: usize, to: usize) -> (r: Result<Bucket, DistributionError>)
    requires
        from <= to <= text@.len(),
    ensures
        r == bucket_of(text@.subrange(from as int, to as int)),
{
    let ghost t = text@.subrange(from as int, to as int);
    let k = find_char(text, 'x', from, to);
    if k == to {
        return Err(DistributionError::MissingSeparator);
    }
    assert(t.take(k - from) =~= text@.subrange(from as int, k as int));
    assert(t.skip(k - from + 1) =~= text@.subrange(k + 1, to as int));
    match decimal_in(text, from, k) {
        None => Err(DistributionError::BadProbability),
        Some(u) => {
            if u == 0 || u > SCALE as u128 {
                Err(DistributionError::ProbabilityOutOfRange)
            } else {
                match count_in(text, k + 1, to) {
                    Err(e) => Err(e),
                    Ok(c) => Ok(Bucket { weight: u as u64, count: c }),
                }
            }
        },
    }
}

fn weight_sum(bs: &Vec<Bucket>) -> (r: u128)
    ensures
        r == total_weight(bs@),
{
    let mut sum: u128 = 0;
    let mut i: usize = 0;
    while i < bs.len()
        invariant
            i <= bs@.len(),
            sum == total_weight(bs@.take(i as int)),
            sum <= i * (u64::MAX as int),
        decreases bs@.len() - i,
    {
        assert(bs@.take(i + 1).drop_last() =~= bs@.take(i as int));
        let w = bs[i].weight;
        assert(sum + w <= (i + 1) * (u64::MAX as int)) by (nonlinear_arith)
            requires
                sum <= i * (u64::MAX as int),
                w <= u64::MAX,
        ;
        sum = sum + w as u128;
        i = i + 1;
    }
    assert(bs@.take(i as int) =~= bs@);
    sum
}

impl DistributionSpec {
    /// Parses `<probability>x<count>` tokens separated by commas, in declared order.
    /// A probability is a decimal in (0, 1]; a count is `ALL` or a positive integer;
    /// the probabilities must sum to 1.0 within `EPSILON`.
    pub fn parse(text: &str) -> (r: Result<DistributionSpec, DistributionError>)
        ensures
            match parse_spec(text@) {
                Ok(bs) => r is Ok && r->Ok_0@ == bs,
                Err(e) => r is Err && r->Err_0 == e,
            },
            r is Ok ==> r->Ok_0.wf(),
    {
        let ghost s = text@;
        let n = text.unicode_len();
        if n == 0 {
            return Err(DistributionError::Empty);
        }
        let mut buckets: Vec<Bucket> = Vec::new();
        let mut start: usize = 0;
        let mut i: usize = 0;
        loop
            invariant
                s == text@,
                n == s.len() > 0,
                start <= i <= n,
                buckets_from(s, 0, 0) == prepend(buckets@, buckets_from(s, start as int, i as int)),
                forall|j: int|
                    0 <= j < buckets@.len() ==> 0 < (#[trigger] buckets@[j]).weight <= SCALE,
                forall|j: int|
                    0 <= j < buckets@.len() ==> (#[trigger] buckets@[j]).count != Count::Fixed(0),
            decreases n - i,
        {
            if i == n || text.get_char(i) == ',' {
                let b = bucket_in(text, start, i);
                match b {
                    Err(e) => {
                        return Err(e);
                    },
                    Ok(b) => {
                        let ghost before = buckets@;
                        buckets.push(b);
                        if i == n {
                            assert(before + seq![b] =~= buckets@);
                            return Self::checked(buckets);
                        }
                        proof {
                            let rest = buckets_from(s, i + 1, i + 1);
                            match rest {
                                Ok(x) => {
                                    assert(before + (seq![b] + x) =~= buckets@ + x);
                                },
                                Err(_) => {},
                            }
                        }
                        start = i + 1;
                        i = i + 1;
                    },
                }
            } else {
                i = i + 1;
            }
        }
    }

    fn checked(buckets: Vec<Bucket>) -> (r: Result<DistributionSpec, DistributionError>)
        requires
            buckets@.len() > 0,
            forall|j: int| 0 <= j < buckets@.len() ==> 0 < (#[trigger] buckets@[j]).weight <= SCALE,
            forall|j: int| 0 <= j < buckets@.len() ==> (#[trigger] buckets@[j]).count != Count::Fixed(0),
        ensures
            sums_to_one(buckets@) ==> r is Ok && r->Ok_0@ == buckets@ && r->Ok_0.wf(),
            !sums_to_one(buckets@) ==> r is Err && r->Err_0 == DistributionError::BadSum,
    {
        let total = weight_sum(&buckets);
        if (SCALE - EPSILON) as u128 <= total && total <= (SCALE + EPSILON) as u128 {
            Ok(DistributionSpec { buckets })
        } else {
            Err(DistributionError::BadSum)
        }
    }
}

// ---------------------------------------------------------------------------
// Sampling.

/// Multiplier and increment of the index mixer (the 64-bit golden ratio).
pub const GOLDEN_GAMMA: u64 = 0x9E37_79B9_7F4A_7C15;

pub const MIX_MUL_A: u64 = 0xBF58_476D_1CE4_E5B9;

pub const MIX_MUL_B: u64 = 0x94D0_49BB_1331_11EB;

/// A fixed bijective scrambling of a 64-bit value: the same input gives the
/// same output in every process, on every machine.
pub open spec fn mix_spec(x: u64) -> u64 {
    let z0 = x.wrapping_add(1).wrapping_mul(GOLDEN_GAMMA);
    let z1 = (z0 ^ (z0 >> 30u64)).wrapping_mul(MIX_MUL_A);
    let z2 = (z1 ^ (z1 >> 27u64)).wrapping_mul(MIX_MUL_B);
    z2 ^ (z2 >> 31u64)
}

/// The draw of request `index`, in probability units in `[0, SCALE)`.
pub open spec fn draw_of(index: u64) -> int {
    (mix_spec(index % WINDOW) % SCALE) as int
}

/// The first bucket from `i` on whose cumulative weight (starting at `acc`)
/// exceeds `draw`; the last bucket when none does.
pub open spec fn pick(bs: Seq<Bucket>, draw: int, i: int, acc: int) -> int
    decreases bs.len() - i,
{
    if i >= bs.len() {
        bs.len() - 1
    } else if acc + bs[i].weight > draw {
        i
    } else {
        pick(bs, draw, i + 1, acc + bs[i].weight)
    }
}

pub open spec fn min_usize(a: usize, b: usize) -> usize {
    if a < b {
        a
    } else {
        b
    }
}

/// A bucket's count on `available` files: `ALL` is all of them, a number is clamped.
pub open spec fn resolve(c: Count, available: usize) -> usize {
    match c {
        Count::All => available,
        Count::Fixed(n) => min_usize(n, available),
    }
}

/// The count chosen without a distribution.
pub open spec fn legacy_count(max_deps: usize, max_impacted: usize, available: usize) -> usize {
    min_usize(min_usize(max_deps, max_impacted), available)
}

/// The count drawn for request `index` from the buckets `bs`.
pub open spec fn sampled(index: u64, available: usize, bs: Seq<Bucket>) -> usize {
    resolve(bs[pick(bs, draw_of(index), 0, 0)].count, available)
}

/// The dependency count of request `index`.
pub open spec fn sample_spec(
    index: u64,
    available: usize,
    spec: Option<Seq<Bucket>>,
    max_deps: usize,
    max_impacted: usize,
) -> usize {
    match spec {
        Some(bs) => if bs.len() > 0 {
            sampled(index, available, bs)
        } else {
            legacy_count(max_deps, max_impacted, available)
        },
        None => legacy_count(max_deps, max_impacted, available),
    }
}

pub open spec fn spec_view(spec: Option<&DistributionSpec>) -> Option<Seq<Bucket>> {
    match spec {
        Some(d) => Some(d@),
        None => None,
    }
}

fn mix(x: u64) -> (r: u64)
    ensures
        r == mix_spec(x),
{
    let z0 = x.wrapping_add(1).wrapping_mul(GOLDEN_GAMMA);
    let z1 = (z0 ^ (z0 >> 30u64)).wrapping_mul(MIX_MUL_A);
    let z2 = (z1 ^ (z1 >> 27u64)).wrapping_mul(MIX_MUL_B);
    z2 ^ (z2 >> 31u64)
}

proof fn lemma_pick_bounds(bs: Seq<Bucket>, draw: int, i: int, acc: int)
    requires
        bs.len() > 0,
        0 <= i,
    ensures
        0 <= pick(bs, draw, i, acc) < bs.len(),
    decreases bs.len() - i,
{
    if i < bs.len() && acc + bs[i].weight <= draw {
        lemma_pick_bounds(bs, draw, i + 1, acc + bs[i].weight);
    }
}

/// Picks the dependency count of request `index`. Without a distribution
/// (or with one that has no buckets) it is `min(max_deps, max_impacted, available)`.
/// With one, `index` is reduced modulo `WINDOW`, mixed into a draw in `[0, 1)`,
/// and the first bucket whose cumulative probability exceeds the draw is chosen;
/// `ALL` stands for `available` and any other count is clamped to `available`.
pub fn sample(
    index: u64,
    available: usize,
    spec: Option<&DistributionSpec>,
    max_deps: usize,
    max_impacted: usize,
) -> (r: usize)
    ensures
        r == sample_spec(index, available, spec_view(spec), max_deps, max_impacted),
        r <= available,
{
    let legacy = if max_deps < max_impacted { max_deps } else { max_impacted };
    let legacy = if legacy < available { legacy } else { available };
    match spec {
        None => legacy,
        Some(d) => {
            let bs = &d.buckets;
            if bs.len() == 0 {
                return legacy;
            }
            let draw = (mix(index % WINDOW) % SCALE) as u128;
            let ghost bview = bs@;
            let mut i: usize = 0;
            let mut acc: u128 = 0;
            proof {
                lemma_pick_bounds(bview, draw as int, 0, 0);
            }
            while i < bs.len() - 1 && acc + bs[i].weight as u128 <= draw
                invariant
                    bview == bs@,
                    bview.len() > 0,
                    i < bview.len(),
                    acc <= draw < SCALE,
                    draw == draw_of(index),
                    pick(bview, draw as int, 0, 0) == pick(bview, draw as int, i as int, acc as int),
                decreases bview.len() - i,
            {
                acc = acc + bs[i].weight as u128;
                i = i + 1;
            }
            proof {
                if i + 1 >= bview.len() && acc + bview[i as int].weight <= draw {
                    assert(pick(bview, draw as int, i + 1, acc + bview[i as int].weight) == i);
                }
            }
            match bs[i].count {
                Count::All => available,
                Count::Fixed(n) => if n < available {
                    n
                } else {
                    available
                },
            }
        },
    }
}

/// The draw of a request depends only on its index modulo `WINDOW`: requests
/// whose indices agree modulo `WINDOW` (in particular `index` and
/// `index + WINDOW`, and repeated calls with the same index) get the same
/// dependency count from the same distribution and the same `available`.
pub proof fn lemma_sample_repeats_over_window(
    i: u64,
    j: u64,
    available: usize,
    spec: Option<Seq<Bucket>>,
    max_deps: usize,
    max_impacted: usize,
)
    requires
        i % WINDOW == j % WINDOW,
    ensures
        sample_spec(i, available, spec, max_deps, max_impacted) == sample_spec(
            j,
            available,
            spec,
            max_deps,
            max_impacted,
        ),
{
}

/// `index` and `index + WINDOW` are sampled alike.
pub proof fn lemma_sample_wraps(
    index: u64,
    available: usize,
    spec: Option<Seq<Bucket>>,
    max_deps: usize,
    max_impacted: usize,
)
    requires
        index + WINDOW <= u64::MAX,
    ensures
        sample_spec(index, available, spec, max_deps, max_impacted) == sample_spec(
            (index + WINDOW) as u64,
            available,
            spec,
            max_deps,
            max_impacted,
        ),
{
    let k = index as int;
    assert((k + 1000) % 1000 == k % 1000) by (nonlinear_arith);
    lemma_sample_repeats_over_window(index, (index + WINDOW) as u64, available, spec, max_deps, max_impacted);
}

/// Without a distribution the count is `min(max_deps, max_impacted, available)`.
pub proof fn lemma_sample_fallback(index: u64, available: usize, max_deps: usize, max_impacted: usize)
    ensures
        sample_spec(index, available, None, max_deps, max_impacted) == min_usize(
            min_usize(max_deps, max_impacted),
            available,
        ),
{
}

/// A probability written as a decimal, in units of `1 / SCALE`, when it is a
/// decimal no greater than one.
pub fn parse_probability(text: &str) -> (r: Option<u64>)
    ensures
        match decimal_units(text@) {
            Some(u) => if u <= SCALE { r == Some(u as u64) } else { r is None },
            None => r is None,
        },
{
    let n = text.unicode_len();
    assert(text@.subrange(0, n as int) =~= text@);
    match decimal_in(text, 0, n) {
        Some(u) => if u <= SCALE as u128 {
            Some(u as u64)
        } else {
            None
        },
        None => None,
    }
}

} // verus!
