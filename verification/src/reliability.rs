//! Classification of backend error text into a wait-and-retry decision.
//!
//! Two transient patterns are recognised: a rate-limit message of the form
//! `"... try again in <duration>. Visit ..."`, whose duration is parsed
//! (with any fractional suffix truncated first), and a connection-reset
//! message containing `"onnection reset by peer"`.  Everything else is
//! fatal for the attempt.  The caller performs the actual wait and the
//! re-invocation; this module only decides.

use vstd::prelude::*;

verus! {

/// What the caller should do after a failed chat attempt: wait the given
/// number of milliseconds and retry, or give up on this attempt.
#[derive(Clone, Copy, Debug, PartialEq, Eq, Structural)]
pub enum RetryDecision {
    Retry(u128),
    NoRetry,
}

// ---------------------------------------------------------------------------
// Character classes
// ---------------------------------------------------------------------------

/// The Unicode `White_Space` characters, exactly the set `char::is_whitespace`
/// accepts.
pub open spec fn is_space(c: char) -> bool {
    ||| c == ' '
    ||| c == '\t'
    ||| c == '\n'
    ||| c == '\u{b}'
    ||| c == '\u{c}'
    ||| c == '\r'
    ||| c == '\u{85}'
    ||| c == '\u{a0}'
    ||| c == '\u{1680}'
    ||| ('\u{2000}' as u32 <= c as u32 && c as u32 <= '\u{200a}' as u32)
    ||| c == '\u{2028}'
    ||| c == '\u{2029}'
    ||| c == '\u{202f}'
    ||| c == '\u{205f}'
    ||| c == '\u{3000}'
}

pub(crate) fn space_char(c: char) -> (b: bool)
    ensures
        b == is_space(c),
{
    c == ' ' || c == '\t' || c == '\n' || c == '\u{b}' || c == '\u{c}' || c == '\r' || c
        == '\u{85}' || c == '\u{a0}' || c == '\u{1680}' || ('\u{2000}' as u32 <= c as u32 && c
        as u32 <= '\u{200a}' as u32) || c == '\u{2028}' || c == '\u{2029}' || c == '\u{202f}' || c
        == '\u{205f}' || c == '\u{3000}'
}

/// An ASCII decimal digit.
pub open spec fn is_digit(c: char) -> bool {
    48 <= c as u32 <= 57
}

fn digit_char(c: char) -> (b: bool)
    ensures
        b == is_digit(c),
{
    48 <= c as u32 && c as u32 <= 57
}

/// The numeric value of an ASCII digit.
pub open spec fn digit_val(c: char) -> int {
    c as u32 - 48
}

// ---------------------------------------------------------------------------
// Pattern occurrence
// ---------------------------------------------------------------------------

/// The phrase introducing the wait hint of a rate-limit message.
pub open spec fn retry_marker() -> Seq<char> {
    "try again in "@
}

/// The phrase that closes the wait hint of a rate-limit message.
pub open spec fn visit_marker() -> Seq<char> {
    ". Visit"@
}

/// The connection-reset phrase, with its leading letter left off so that
/// both `"Connection"` and `"connection"` match.
pub open spec fn reset_marker() -> Seq<char> {
    "onnection reset by peer"@
}

/// `p` occurs in `s` starting at index `i`.
pub open spec fn occurs_at(s: Seq<char>, p: Seq<char>, i: int) -> bool {
    &&& 0 <= i
    &&& i + p.len() <= s.len()
    &&& forall|k: int| 0 <= k < p.len() ==> s[i + k] == p[k]
}

/// A rate-limit match at `i`: the retry phrase occurs there, not at the very
/// start of its line, and the closing phrase follows on the same line with
/// at least one character (the duration) in between.
pub open spec fn rl_at(s: Seq<char>, i: int) -> bool {
    &&& 1 <= i
    &&& s[i - 1] != '\n'
    &&& occurs_at(s, retry_marker(), i)
    &&& exists|j: int| #[trigger] visit_ok(s, i + retry_marker().len(), j)
}

/// The closing phrase occurs at `j`, strictly after the duration start `cs`,
/// with no line break in the duration.
pub open spec fn visit_ok(s: Seq<char>, cs: int, j: int) -> bool {
    &&& cs < j
    &&& occurs_at(s, visit_marker(), j)
    &&& forall|k: int| cs <= k < j ==> s[k] != '\n'
}

/// A connection-reset match at `i`: the reset phrase occurs there, preceded
/// on its line by at least one character (the `C` or `c` of "connection").
pub open spec fn cr_at(s: Seq<char>, i: int) -> bool {
    &&& 1 <= i
    &&& s[i - 1] != '\n'
    &&& occurs_at(s, reset_marker(), i)
}

/// The error text matches the connection-reset pattern.
pub open spec fn is_conn_reset(s: Seq<char>) -> bool {
    exists|i: int| cr_at(s, i)
}

/// The first rate-limit match at or after `i`, if any.
pub open spec fn first_rl(s: Seq<char>, i: int) -> Option<int>
    decreases s.len() - i,
{
    if i >= s.len() {
        None
    } else if rl_at(s, i) {
        Some(i)
    } else {
        first_rl(s, i + 1)
    }
}

/// The first closing-phrase position at or after `j` for a duration starting
/// at `cs`, if any.
pub open spec fn first_visit(s: Seq<char>, cs: int, j: int) -> Option<int>
    decreases s.len() - j,
{
    if j >= s.len() {
        None
    } else if visit_ok(s, cs, j) {
        Some(j)
    } else {
        first_visit(s, cs, j + 1)
    }
}

/// The first `'.'` at or after `i`, if any.
pub open spec fn first_dot(s: Seq<char>, i: int) -> Option<int>
    decreases s.len() - i,
{
    if i >= s.len() {
        None
    } else if s[i] == '.' {
        Some(i)
    } else {
        first_dot(s, i + 1)
    }
}

/// The duration text captured by the first rate-limit match, if any.
pub open spec fn rl_capture(s: Seq<char>) -> Option<Seq<char>> {
    match first_rl(s, 0) {
        Some(i) => {
            let cs = i + retry_marker().len();
            match first_visit(s, cs, cs + 1) {
                Some(j) => Some(s.subrange(cs, j)),
                None => None,
            }
        },
        None => None,
    }
}

/// Duration parsers reject fractional values, so everything from the first
/// `'.'` on is cut off and replaced by a bare `s` unit.
pub open spec fn truncated(c: Seq<char>) -> Seq<char> {
    match first_dot(c, 0) {
        Some(d) => c.subrange(0, d) + "s"@,
        None => c,
    }
}

/// `s` with every whitespace character removed, as the duration parser
/// removes them before grouping.
pub open spec fn strip_ws(s: Seq<char>) -> Seq<char>
    decreases s.len(),
{
    if s.len() == 0 {
        s
    } else if is_space(s.last()) {
        strip_ws(s.drop_last())
    } else {
        strip_ws(s.drop_last()) + seq![s.last()]
    }
}

// ---------------------------------------------------------------------------
// The duration grammar: a multiple of `[0-9]+(ns|us|ms|[smhdwy])`
// ---------------------------------------------------------------------------

/// The largest value a `std::time::Duration` can hold, in nanoseconds.
pub const DUR_MAX_NANOS: u128 = 18446744073709551615 * 1000000000 + 999999999;

/// The end of the run of ASCII digits starting at `i`.
pub open spec fn digits_end(u: Seq<char>, i: int) -> int
    decreases u.len() - i,
{
    if i < 0 || i >= u.len() {
        i
    } else if is_digit(u[i]) {
        digits_end(u, i + 1)
    } else {
        i
    }
}

/// The end of the run of non-digit characters starting at `i`.
pub open spec fn unit_end(u: Seq<char>, i: int) -> int
    decreases u.len() - i,
{
    if i < 0 || i >= u.len() {
        i
    } else if is_digit(u[i]) {
        i
    } else {
        unit_end(u, i + 1)
    }
}

/// The decimal value of the digit run `u[i..e]`.
pub open spec fn digits_val(u: Seq<char>, i: int, e: int) -> int
    decreases e - i,
{
    if i >= e {
        0
    } else {
        digits_val(u, i, e - 1) * 10 + digit_val(u[e - 1])
    }
}

/// The length of a nanosecond, microsecond, ..., year in nanoseconds, or 0
/// for an unrecognised unit.  A year is 31,556,926 seconds here.
pub open spec fn unit_nanos(un: Seq<char>) -> int {
    if un == seq!['n', 's'] {
        1
    } else if un == seq!['u', 's'] {
        1000
    } else if un == seq!['m', 's'] {
        1000000
    } else if un == seq!['s'] {
        1000000000
    } else if un == seq!['m'] {
        60int * 1000000000
    } else if un == seq!['h'] {
        3600int * 1000000000
    } else if un == seq!['d'] {
        86400int * 1000000000
    } else if un == seq!['w'] {
        604800int * 1000000000
    } else if un == seq!['y'] {
        31556926int * 1000000000
    } else {
        0
    }
}

/// Whether `un` is one of the recognised unit suffixes.
pub open spec fn unit_known(un: Seq<char>) -> bool {
    ||| un == seq!['n', 's']
    ||| un == seq!['u', 's']
    ||| un == seq!['m', 's']
    ||| un == seq!['s']
    ||| un == seq!['m']
    ||| un == seq!['h']
    ||| un == seq!['d']
    ||| un == seq!['w']
    ||| un == seq!['y']
}

/// Units the parser builds by multiplying a whole number of seconds, with
/// that multiplier; the product must fit the parser's second counter.
pub open spec fn unit_secs_mult(un: Seq<char>) -> int {
    if un == seq!['m'] {
        60
    } else if un == seq!['h'] {
        3600
    } else if un == seq!['d'] {
        86400
    } else if un == seq!['w'] {
        604800
    } else if un == seq!['y'] {
        31556926
    } else {
        0
    }
}

/// One `digits unit` group starting at `i` is well formed and within the
/// parser's arithmetic bounds.
pub open spec fn group_ok(u: Seq<char>, i: int, de: int, ue: int) -> bool {
    let v = digits_val(u, i, de);
    let un = u.subrange(de, ue);
    &&& unit_known(un)
    &&& v <= u64::MAX
    &&& unit_secs_mult(un) > 0 ==> v * unit_secs_mult(un) <= u64::MAX
}

/// `u[i..]` is a sequence of well-formed `digits unit` groups (possibly
/// empty).
pub open spec fn groups_wf(u: Seq<char>, i: int) -> bool
    decreases u.len() - i,
{
    if i >= u.len() {
        true
    } else {
        let de = digits_end(u, i);
        let ue = unit_end(u, de);
        if i < de && de < ue && ue <= u.len() {
            group_ok(u, i, de, ue) && groups_wf(u, ue)
        } else {
            false
        }
    }
}

/// The total nanoseconds of the groups of `u[i..]`.
pub open spec fn groups_nanos(u: Seq<char>, i: int) -> int
    decreases u.len() - i,
{
    if i >= u.len() {
        0
    } else {
        let de = digits_end(u, i);
        let ue = unit_end(u, de);
        if i < de && de < ue && ue <= u.len() {
            digits_val(u, i, de) * unit_nanos(u.subrange(de, ue)) + groups_nanos(u, ue)
        } else {
            0
        }
    }
}

/// `u` (already whitespace-free) is a duration the parser accepts: at least
/// one group, every group well formed, and the total within `Duration`
/// range.
pub open spec fn wf_duration(u: Seq<char>) -> bool {
    &&& u.len() > 0
    &&& groups_wf(u, 0)
    &&& groups_nanos(u, 0) <= DUR_MAX_NANOS
}

/// The whole milliseconds of a well-formed duration.
pub open spec fn duration_ms(u: Seq<char>) -> int {
    groups_nanos(u, 0) / 1000000
}

// ---------------------------------------------------------------------------
// The classification itself
// ---------------------------------------------------------------------------

/// What `check_rate_limit` decides for a given error text: a rate-limit
/// match whose (truncated) duration parses yields a retry after the duration
/// plus one second; otherwise a connection-reset match yields a retry after
/// five seconds; everything else is fatal.
pub open spec fn classify_spec(s: Seq<char>) -> RetryDecision {
    match rl_capture(s) {
        Some(cap) => {
            let u = strip_ws(truncated(cap));
            if wf_duration(u) {
                RetryDecision::Retry((duration_ms(u) + 1000) as u128)
            } else {
                RetryDecision::NoRetry
            }
        },
        None => if is_conn_reset(s) {
            RetryDecision::Retry(5000)
        } else {
            RetryDecision::NoRetry
        },
    }
}

// ---------------------------------------------------------------------------
// Scan lemmas: a first hit found by a forward search is what the recursive
// first-hit functions denote.
// ---------------------------------------------------------------------------

proof fn lemma_first_rl_found(s: Seq<char>, lo: int, i: int)
    requires
        0 <= lo <= i,
        rl_at(s, i),
        forall|k: int| lo <= k < i ==> !rl_at(s, k),
    ensures
        first_rl(s, lo) == Some(i),
    decreases i - lo,
{
    reveal_strlit("try again in ");
    assert(i < s.len());
    if lo < i {
        lemma_first_rl_found(s, lo + 1, i);
    }
}

proof fn lemma_first_rl_none(s: Seq<char>, lo: int)
    requires
        0 <= lo,
        forall|k: int| lo <= k ==> !rl_at(s, k),
    ensures
        first_rl(s, lo) is None,
    decreases s.len() - lo,
{
    if lo < s.len() {
        lemma_first_rl_none(s, lo + 1);
    }
}

proof fn lemma_first_visit_found(s: Seq<char>, cs: int, lo: int, j: int)
    requires
        0 <= lo <= j,
        visit_ok(s, cs, j),
        forall|k: int| lo <= k < j ==> !visit_ok(s, cs, k),
    ensures
        first_visit(s, cs, lo) == Some(j),
    decreases j - lo,
{
    reveal_strlit(". Visit");
    assert(j < s.len());
    if lo < j {
        lemma_first_visit_found(s, cs, lo + 1, j);
    }
}

proof fn lemma_first_dot_found(s: Seq<char>, lo: int, d: int)
    requires
        0 <= lo <= d < s.len(),
        s[d] == '.',
        forall|k: int| lo <= k < d ==> s[k] != '.',
    ensures
        first_dot(s, lo) == Some(d),
    decreases d - lo,
{
    if lo < d {
        lemma_first_dot_found(s, lo + 1, d);
    }
}

proof fn lemma_first_dot_none(s: Seq<char>, lo: int)
    requires
        0 <= lo,
        forall|k: int| lo <= k < s.len() ==> s[k] != '.',
    ensures
        first_dot(s, lo) is None,
    decreases s.len() - lo,
{
    if lo < s.len() {
        lemma_first_dot_none(s, lo + 1);
    }
}

// ---------------------------------------------------------------------------
// Digit and unit runs
// ---------------------------------------------------------------------------

proof fn lemma_digits_end_is(u: Seq<char>, i: int, e: int)
    requires
        0 <= i <= e <= u.len(),
        forall|k: int| i <= k < e ==> is_digit(u[k]),
        e == u.len() || !is_digit(u[e]),
    ensures
        digits_end(u, i) == e,
    decreases e - i,
{
    if i < e {
        lemma_digits_end_is(u, i + 1, e);
    }
}

proof fn lemma_unit_end_is(u: Seq<char>, i: int, e: int)
    requires
        0 <= i <= e <= u.len(),
        forall|k: int| i <= k < e ==> !is_digit(u[k]),
        e == u.len() || is_digit(u[e]),
    ensures
        unit_end(u, i) == e,
    decreases e - i,
{
    if i < e {
        lemma_unit_end_is(u, i + 1, e);
    }
}

proof fn lemma_digits_val_nonneg(u: Seq<char>, i: int, e: int)
    requires
        forall|k: int| i <= k < e ==> is_digit(u[k]),
    ensures
        digits_val(u, i, e) >= 0,
    decreases e - i,
{
    if i < e {
        lemma_digits_val_nonneg(u, i, e - 1);
        assert(digit_val(u[e - 1]) >= 0);
        assert(digits_val(u, i, e - 1) * 10 >= 0);
    }
}

proof fn lemma_digits_val_mono(u: Seq<char>, i: int, e1: int, e2: int)
    requires
        i <= e1 <= e2,
        forall|k: int| i <= k < e2 ==> is_digit(u[k]),
    ensures
        digits_val(u, i, e1) <= digits_val(u, i, e2),
    decreases e2 - e1,
{
    if e1 < e2 {
        lemma_digits_val_mono(u, i, e1, e2 - 1);
        lemma_digits_val_nonneg(u, i, e2 - 1);
        assert(digits_val(u, i, e2) == digits_val(u, i, e2 - 1) * 10 + digit_val(u[e2 - 1]));
        assert(digits_val(u, i, e2 - 1) * 10 >= digits_val(u, i, e2 - 1)) by (nonlinear_arith)
            requires
                digits_val(u, i, e2 - 1) >= 0,
        ;
    }
}

proof fn lemma_digits_end_digits(u: Seq<char>, i: int)
    requires
        0 <= i,
    ensures
        forall|k: int| i <= k < digits_end(u, i) ==> is_digit(u[k]),
    decreases u.len() - i,
{
    if 0 <= i < u.len() && is_digit(u[i]) {
        lemma_digits_end_digits(u, i + 1);
    }
}

proof fn lemma_groups_nanos_nonneg(u: Seq<char>, i: int)
    requires
        0 <= i,
        groups_wf(u, i),
    ensures
        groups_nanos(u, i) >= 0,
    decreases u.len() - i,
{
    if i < u.len() {
        let de = digits_end(u, i);
        let ue = unit_end(u, de);
        lemma_digits_end_digits(u, i);
        lemma_digits_val_nonneg(u, i, de);
        lemma_groups_nanos_nonneg(u, ue);
        assert(digits_val(u, i, de) * unit_nanos(u.subrange(de, ue)) >= 0) by (nonlinear_arith)
            requires
                digits_val(u, i, de) >= 0,
                unit_nanos(u.subrange(de, ue)) >= 0,
        ;
    }
}

// ---------------------------------------------------------------------------
// Executable searches
// ---------------------------------------------------------------------------

/// `pat` occurs in `s` at index `i`.
fn occurs_here(s: &str, n: usize, pat: &str, m: usize, i: usize) -> (b: bool)
    requires
        n == s@.len(),
        m == pat@.len(),
        i + m <= n,
    ensures
        b == occurs_at(s@, pat@, i as int),
{
    let mut k: usize = 0;
    while k < m
        invariant
            k <= m,
            i + m <= n,
            n == s@.len(),
            m == pat@.len(),
            forall|k2: int| 0 <= k2 < k ==> s@[i + k2] == pat@[k2],
        decreases m - k,
    {
        if s.get_char(i + k) != pat.get_char(k) {
            assert(s@[i + k as int] != pat@[k as int]);
            return false;
        }
        k += 1;
    }
    true
}

/// The first closing phrase strictly after `cs` on the same line, if any.
fn find_visit(s: &str, n: usize, cs: usize) -> (r: Option<usize>)
    requires
        n == s@.len(),
        cs <= n,
    ensures
        match r {
            Some(j) => first_visit(s@, cs as int, cs as int + 1) == Some(j as int) && visit_ok(
                s@,
                cs as int,
                j as int,
            ),
            None => forall|j: int| !visit_ok(s@, cs as int, j),
        },
{
    let pat = ". Visit";
    let m = pat.unicode_len();
    proof {
        reveal_strlit(". Visit");
    }
    let mut j = cs;
    while j < n
        invariant
            cs <= j <= n,
            n == s@.len(),
            m == visit_marker().len(),
            pat@ == visit_marker(),
            forall|j2: int| cs < j2 < j ==> !visit_ok(s@, cs as int, j2),
            forall|k: int| cs <= k < j ==> s@[k] != '\n',
        decreases n - j,
    {
        if j > cs && m <= n - j {
            if occurs_here(s, n, pat, m, j) {
                assert(visit_ok(s@, cs as int, j as int));
                proof {
                    lemma_first_visit_found(s@, cs as int, cs as int + 1, j as int);
                }
                return Some(j);
            }
        }
        assert(!visit_ok(s@, cs as int, j as int));
        if s.get_char(j) == '\n' {
            assert forall|j2: int| !visit_ok(s@, cs as int, j2) by {
                if j2 > j {
                    assert(cs <= j < j2 && s@[j as int] == '\n');
                }
            }
            return None;
        }
        j += 1;
    }
    assert forall|j2: int| !visit_ok(s@, cs as int, j2) by {
        if j2 >= n {
            assert(!occurs_at(s@, visit_marker(), j2));
        }
    }
    None
}

/// The first rate-limit match of the whole text, with the position of its
/// closing phrase.
fn find_rate_limit(s: &str, n: usize) -> (r: Option<(usize, usize)>)
    requires
        n == s@.len(),
    ensures
        match r {
            Some(ij) => {
                &&& first_rl(s@, 0) == Some(ij.0 as int)
                &&& first_visit(
                    s@,
                    ij.0 + retry_marker().len(),
                    ij.0 + retry_marker().len() + 1,
                ) == Some(ij.1 as int)
                &&& ij.0 + retry_marker().len() < ij.1 <= n
            },
            None => first_rl(s@, 0) is None,
        },
{
    let pat = "try again in ";
    let m = pat.unicode_len();
    proof {
        reveal_strlit("try again in ");
    }
    let mut i: usize = 0;
    while i < n
        invariant
            i <= n,
            n == s@.len(),
            m == retry_marker().len(),
            pat@ == retry_marker(),
            forall|i2: int| 0 <= i2 < i ==> !rl_at(s@, i2),
        decreases n - i,
    {
        if i >= 1 && m <= n - i {
            if s.get_char(i - 1) != '\n' && occurs_here(s, n, pat, m, i) {
                let cs = i + m;
                match find_visit(s, n, cs) {
                    Some(j) => {
                        assert(rl_at(s@, i as int));
                        proof {
                            lemma_first_rl_found(s@, 0, i as int);
                        }
                        return Some((i, j));
                    },
                    None => {
                        assert(!rl_at(s@, i as int));
                    },
                }
            } else {
                assert(!rl_at(s@, i as int));
            }
        } else {
            assert(!rl_at(s@, i as int));
        }
        i += 1;
    }
    assert forall|i2: int| 0 <= i2 ==> !rl_at(s@, i2) by {
        if i2 >= n {
            assert(!occurs_at(s@, retry_marker(), i2));
        }
    }
    proof {
        lemma_first_rl_none(s@, 0);
    }
    None
}

/// Whether the text holds a connection-reset match anywhere.
fn find_conn_reset(s: &str, n: usize) -> (b: bool)
    requires
        n == s@.len(),
    ensures
        b == is_conn_reset(s@),
{
    let pat = "onnection reset by peer";
    let m = pat.unicode_len();
    proof {
        reveal_strlit("onnection reset by peer");
    }
    let mut i: usize = 0;
    while i < n
        invariant
            i <= n,
            n == s@.len(),
            m == reset_marker().len(),
            pat@ == reset_marker(),
            forall|i2: int| 0 <= i2 < i ==> !cr_at(s@, i2),
        decreases n - i,
    {
        if i >= 1 && m <= n - i {
            if s.get_char(i - 1) != '\n' && occurs_here(s, n, pat, m, i) {
                assert(cr_at(s@, i as int));
                return true;
            } else {
                assert(!cr_at(s@, i as int));
            }
        } else {
            assert(!cr_at(s@, i as int));
        }
        i += 1;
    }
    assert forall|i2: int| 0 <= i2 ==> !cr_at(s@, i2) by {
        if i2 >= n {
            assert(!occurs_at(s@, reset_marker(), i2));
        }
    }
    false
}

/// The first `'.'` of the text, if any.
fn find_dot(s: &str, n: usize) -> (r: Option<usize>)
    requires
        n == s@.len(),
    ensures
        match r {
            Some(d) => first_dot(s@, 0) == Some(d as int) && d < n,
            None => first_dot(s@, 0) is None,
        },
{
    let mut i: usize = 0;
    while i < n
        invariant
            i <= n,
            n == s@.len(),
            forall|k: int| 0 <= k < i ==> s@[k] != '.',
        decreases n - i,
    {
        if s.get_char(i) == '.' {
            proof {
                lemma_first_dot_found(s@, 0, i as int);
            }
            return Some(i);
        }
        i += 1;
    }
    proof {
        lemma_first_dot_none(s@, 0);
    }
    None
}

// ---------------------------------------------------------------------------
// Executable duration well-formedness check
// ---------------------------------------------------------------------------

/// Decides `wf_duration` for an already whitespace-free character sequence.
fn duration_wf_check(v: &Vec<char>) -> (b: bool)
    ensures
        b == wf_duration(v@),
{
    let n = v.len();
    if n == 0 {
        return false;
    }
    let mut p: usize = 0;
    let mut total: u128 = 0;
    while p < n
        invariant
            p <= n,
            n == v@.len(),
            groups_wf(v@, 0) == groups_wf(v@, p as int),
            groups_wf(v@, p as int) ==> groups_nanos(v@, 0) == total + groups_nanos(
                v@,
                p as int,
            ),
            total <= DUR_MAX_NANOS,
        decreases n - p,
    {
        // the digit run of this group
        let mut de: usize = p;
        while de < n && digit_char(v[de])
            invariant
                p <= de <= n,
                n == v@.len(),
                forall|k: int| p <= k < de ==> is_digit(v@[k]),
            decreases n - de,
        {
            de += 1;
        }
        proof {
            lemma_digits_end_is(v@, p as int, de as int);
        }
        if de == p {
            assert(!groups_wf(v@, p as int));
            return false;
        }
        // its value, within the parser's integer range
        let mut val: u128 = 0;
        let mut k: usize = p;
        while k < de
            invariant
                p <= k <= de <= n,
                n == v@.len(),
                forall|k2: int| p <= k2 < de ==> is_digit(v@[k2]),
                de as int == digits_end(v@, p as int),
                val as int == digits_val(v@, p as int, k as int),
                val <= u64::MAX,
                groups_wf(v@, 0) == groups_wf(v@, p as int),
            decreases de - k,
        {
            let c = v[k];
            assert(is_digit(v@[k as int]));
            let d = (c as u32 - 48) as u128;
            let next = val * 10 + d;
            assert(next as int == digits_val(v@, p as int, k as int + 1));
            if next > u64::MAX as u128 {
                proof {
                    lemma_digits_val_mono(v@, p as int, k as int + 1, de as int);
                    assert(!group_ok(v@, p as int, de as int, unit_end(v@, de as int)));
                    assert(!groups_wf(v@, p as int));
                }
                return false;
            }
            val = next;
            k += 1;
        }
        // the unit run
        let mut ue: usize = de;
        while ue < n && !digit_char(v[ue])
            invariant
                de <= ue <= n,
                n == v@.len(),
                forall|k2: int| de <= k2 < ue ==> !is_digit(v@[k2]),
            decreases n - ue,
        {
            ue += 1;
        }
        proof {
            lemma_unit_end_is(v@, de as int, ue as int);
        }
        if ue == de {
            assert(!groups_wf(v@, p as int));
            return false;
        }
        let ghost un = v@.subrange(de as int, ue as int);
        // match the unit against the recognised suffixes
        let ulen = ue - de;
        let mut unanos: u128 = 0;
        let mut umult: u128 = 0;
        if ulen == 1 {
            let c = v[de];
            proof {
                assert(un =~= seq![v@[de as int]]);
                assert(un[0] == c);
            }
            if c == 's' {
                unanos = 1000000000;
                proof {
                    assert(un =~= seq!['s']);
                }
            } else if c == 'm' {
                unanos = 60000000000;
                umult = 60;
                proof {
                    assert(un =~= seq!['m']);
                }
            } else if c == 'h' {
                unanos = 3600000000000;
                umult = 3600;
                proof {
                    assert(un =~= seq!['h']);
                }
            } else if c == 'd' {
                unanos = 86400000000000;
                umult = 86400;
                proof {
                    assert(un =~= seq!['d']);
                }
            } else if c == 'w' {
                unanos = 604800000000000;
                umult = 604800;
                proof {
                    assert(un =~= seq!['w']);
                }
            } else if c == 'y' {
                unanos = 31556926000000000;
                umult = 31556926;
                proof {
                    assert(un =~= seq!['y']);
                }
            } else {
                proof {
                    assert(!unit_known(un));
                    assert(!group_ok(v@, p as int, de as int, ue as int));
                    assert(!groups_wf(v@, p as int));
                }
                return false;
            }
        } else if ulen == 2 {
            let c0 = v[de];
            let c1 = v[de + 1];
            proof {
                assert(un =~= seq![v@[de as int], v@[de as int + 1]]);
                assert(un[0] == c0 && un[1] == c1);
            }
            if c0 == 'n' && c1 == 's' {
                unanos = 1;
                proof {
                    assert(un =~= seq!['n', 's']);
                }
            } else if c0 == 'u' && c1 == 's' {
                unanos = 1000;
                proof {
                    assert(un =~= seq!['u', 's']);
                }
            } else if c0 == 'm' && c1 == 's' {
                unanos = 1000000;
                proof {
                    assert(un =~= seq!['m', 's']);
                }
            } else {
                proof {
                    assert(!unit_known(un));
                    assert(!group_ok(v@, p as int, de as int, ue as int));
                    assert(!groups_wf(v@, p as int));
                }
                return false;
            }
        } else {
            proof {
                assert(un.len() > 2);
                assert(!unit_known(un));
                assert(!group_ok(v@, p as int, de as int, ue as int));
                assert(!groups_wf(v@, p as int));
            }
            return false;
        }
        assert(unanos as int == unit_nanos(un));
        assert(umult as int == unit_secs_mult(un));
        // the parser's multiplication bound for second-multiple units
        if umult > 0 {
            assert(val * umult <= u128::MAX) by (nonlinear_arith)
                requires
                    val <= u64::MAX,
                    umult <= 31556926,
            ;
            let prod = val * umult;
            if prod > u64::MAX as u128 {
                assert(!group_ok(v@, p as int, de as int, ue as int));
                assert(!groups_wf(v@, p as int));
                return false;
            }
        }
        assert(group_ok(v@, p as int, de as int, ue as int));
        // this group's nanoseconds, and the running total
        assert(val * unanos <= u128::MAX && val * unanos >= 0) by (nonlinear_arith)
            requires
                val <= u64::MAX,
                0 <= unanos <= 31556926000000000,
        ;
        let g = val * unanos;
        if g > DUR_MAX_NANOS || total > DUR_MAX_NANOS - g {
            proof {
                if groups_wf(v@, 0) {
                    lemma_groups_nanos_nonneg(v@, ue as int);
                    assert(groups_nanos(v@, 0) > DUR_MAX_NANOS);
                }
            }
            return false;
        }
        total = total + g;
        proof {
            assert(groups_wf(v@, p as int) == groups_wf(v@, ue as int));
            if groups_wf(v@, ue as int) {
                assert(groups_nanos(v@, p as int) == g + groups_nanos(v@, ue as int));
            }
        }
        p = ue;
    }
    assert(groups_wf(v@, n as int));
    assert(groups_nanos(v@, n as int) == 0);
    assert(wf_duration(v@));
    true
}

// ---------------------------------------------------------------------------
// Laws of the classification
// ---------------------------------------------------------------------------

proof fn lemma_strip_ws_id(s: Seq<char>)
    requires
        forall|k: int| 0 <= k < s.len() ==> !is_space(s[k]),
    ensures
        strip_ws(s) == s,
    decreases s.len(),
{
    if s.len() > 0 {
        lemma_strip_ws_id(s.drop_last());
        assert(strip_ws(s.drop_last()) + seq![s.last()] =~= s);
    }
}

/// Rate-limit law: any error text whose rate-limit hint reads `3m2.838s`
/// has its fraction truncated to `3m2s`, three minutes and two seconds, and
/// yields a retry after that wait plus one second: 183,000 ms.
pub proof fn lemma_rate_limit_truncates_fraction(s: Seq<char>)
    requires
        rl_capture(s) == Some("3m2.838s"@),
    ensures
        classify_spec(s) == RetryDecision::Retry(183000),
{
    reveal_strlit("3m2.838s");
    reveal_strlit("s");
    reveal_strlit("3m2s");
    let cap = "3m2.838s"@;
    lemma_first_dot_found(cap, 0, 3);
    assert(truncated(cap) =~= "3m2s"@);
    let u = "3m2s"@;
    lemma_strip_ws_id(u);
    lemma_digits_end_is(u, 0, 1);
    lemma_unit_end_is(u, 1, 2);
    lemma_digits_end_is(u, 2, 3);
    lemma_unit_end_is(u, 3, 4);
    assert(u.subrange(1, 2) =~= seq!['m']);
    assert(u.subrange(3, 4) =~= seq!['s']);
    assert(digits_val(u, 0, 0) == 0);
    assert(digits_val(u, 0, 1) == 3);
    assert(digits_val(u, 2, 2) == 0);
    assert(digits_val(u, 2, 3) == 2);
    assert(groups_wf(u, 4));
    assert(groups_nanos(u, 4) == 0);
    assert(group_ok(u, 2, 3, 4));
    assert(groups_wf(u, 2));
    assert(groups_nanos(u, 2) == 2000000000);
    assert(group_ok(u, 0, 1, 2));
    assert(groups_wf(u, 0));
    assert(groups_nanos(u, 0) == 182000000000);
    assert(wf_duration(u));
    assert(duration_ms(u) == 182000);
}

/// Connection-reset law: error text containing `connection reset by peer`
/// (with either case of the leading letter) and no rate-limit hint yields a
/// retry with a fixed five-second wait.
pub proof fn lemma_conn_reset_retries(s: Seq<char>, i: int)
    requires
        1 <= i,
        s[i - 1] == 'c' || s[i - 1] == 'C',
        occurs_at(s, reset_marker(), i),
        forall|k: int| !rl_at(s, k),
    ensures
        classify_spec(s) == RetryDecision::Retry(5000),
{
    lemma_first_rl_none(s, 0);
    assert(cr_at(s, i));
}

/// No-retry law: error text that matches neither transient pattern is fatal
/// for the attempt.
pub proof fn lemma_no_match_no_retry(s: Seq<char>)
    requires
        forall|k: int| !rl_at(s, k),
        !is_conn_reset(s),
    ensures
        classify_spec(s) == RetryDecision::NoRetry,
{
    lemma_first_rl_none(s, 0);
}

// ---------------------------------------------------------------------------
// The trusted duration parser
// ---------------------------------------------------------------------------

/// Relies on `duration_string::DurationString::from_str`: it strips
/// whitespace, groups the text into `digits unit` pairs, and sums them with
/// checked arithmetic, so on a well-formed duration it returns exactly the
/// total the grammar above denotes; `Duration::as_millis` then yields the
/// whole milliseconds of that total.
#[verifier::external_body]
fn parse_duration_ms(s: &str) -> (r: Option<u128>)
    requires
        wf_duration(strip_ws(s@)),
    ensures
        r is Some,
        r->Some_0 as int == duration_ms(strip_ws(s@)),
{
    match s.parse::<duration_string::DurationString>() {
        Ok(d) => Some(std::time::Duration::from(d).as_millis()),
        Err(_) => None,
    }
}

// ---------------------------------------------------------------------------
// The classification entry point
// ---------------------------------------------------------------------------

/// Classifies backend error text: a rate-limit hint whose truncated duration
/// parses yields a retry after that duration plus one second; a
/// connection-reset yields a retry after five seconds; anything else is
/// fatal for this attempt.  The caller waits and re-invokes; an attempt
/// ceiling is the caller's duty.
pub fn check_rate_limit(error: &str) -> (d: RetryDecision)
    ensures
        d == classify_spec(error@),
{
    let n = error.unicode_len();
    match find_rate_limit(error, n) {
        Some((i, j)) => {
            let m = "try again in ".unicode_len();
            proof {
                assert("try again in "@ == retry_marker());
            }
            let cs = i + m;
            let cap = error.substring_char(cs, j);
            assert(cap@ == rl_capture(error@)->Some_0);
            let cl = cap.unicode_len();
            let t: String = match find_dot(cap, cl) {
                Some(dp) => {
                    let mut t0 = cap.substring_char(0, dp).to_owned();
                    t0.append("s");
                    t0
                },
                None => cap.to_owned(),
            };
            assert(t@ == truncated(cap@));
            let ts = t.as_str();
            let tl = ts.unicode_len();
            let mut v: Vec<char> = Vec::new();
            let mut k: usize = 0;
            while k < tl
                invariant
                    k <= tl,
                    tl == ts@.len(),
                    ts@ == t@,
                    v@ == strip_ws(ts@.subrange(0, k as int)),
                decreases tl - k,
            {
                let c = ts.get_char(k);
                proof {
                    assert(ts@.subrange(0, k as int + 1).drop_last() =~= ts@.subrange(
                        0,
                        k as int,
                    ));
                    assert(ts@.subrange(0, k as int + 1).last() == ts@[k as int]);
                }
                if !space_char(c) {
                    v.push(c);
                }
                k += 1;
            }
            proof {
                assert(ts@.subrange(0, tl as int) =~= ts@);
            }
            assert(v@ == strip_ws(truncated(rl_capture(error@)->Some_0)));
            if duration_wf_check(&v) {
                let ms = parse_duration_ms(t.as_str()).unwrap();
                proof {
                    lemma_groups_nanos_nonneg(v@, 0);
                    vstd::arithmetic::div_mod::lemma_div_is_ordered(
                        groups_nanos(v@, 0),
                        DUR_MAX_NANOS as int,
                        1000000,
                    );
                    vstd::arithmetic::div_mod::lemma_div_decreases(
                        DUR_MAX_NANOS as int,
                        1000000,
                    );
                }
                RetryDecision::Retry(ms + 1000)
            } else {
                RetryDecision::NoRetry
            }
        },
        None => {
            if find_conn_reset(error, n) {
                RetryDecision::Retry(5000)
            } else {
                RetryDecision::NoRetry
            }
        },
    }
}

} // verus!

