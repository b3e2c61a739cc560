//! The task interface: what a unit of agent work must provide (its system
//! prompt, its prompt, and the tools it brings), with overridable defaults
//! for history visibility, namespaces, and guidance.  The built-in base
//! guidance is a block of text split into trimmed, nonempty lines.

use vstd::prelude::*;
use crate::protocol::Namespace;
use crate::reliability::{is_space, space_char};

verus! {

// ---------------------------------------------------------------------------
// Splitting guidance text into lines
// ---------------------------------------------------------------------------

/// The first `'\n'` at or after `i`, if any.
pub open spec fn first_nl(s: Seq<char>, i: int) -> Option<int>
    decreases s.len() - i,
{
    if i >= s.len() {
        None
    } else if s[i] == '\n' {
        Some(i)
    } else {
        first_nl(s, i + 1)
    }
}

/// The end of the run of whitespace starting at `i`.
pub open spec fn lead_ws_end(s: Seq<char>, i: int) -> int
    decreases s.len() - i,
{
    if i < 0 || i >= s.len() {
        i
    } else if is_space(s[i]) {
        lead_ws_end(s, i + 1)
    } else {
        i
    }
}

/// Where the trailing run of whitespace begins.
pub open spec fn tail_ws_start(s: Seq<char>) -> int
    decreases s.len(),
{
    if s.len() == 0 {
        0
    } else if is_space(s.last()) {
        tail_ws_start(s.drop_last())
    } else {
        s.len() as int
    }
}

/// `s` with leading and trailing whitespace removed.
pub open spec fn trim_of(s: Seq<char>) -> Seq<char> {
    let a = lead_ws_end(s, 0);
    let b = tail_ws_start(s);
    if a >= b {
        Seq::empty()
    } else {
        s.subrange(a, b)
    }
}

/// The trimmed, nonempty lines of `s`, in order.
pub open spec fn lines_clean(s: Seq<char>) -> Seq<Seq<char>>
    decreases s.len(),
{
    match first_nl(s, 0) {
        None => if trim_of(s).len() > 0 {
            seq![trim_of(s)]
        } else {
            Seq::empty()
        },
        Some(k) => {
            if 0 <= k < s.len() {
                let line = trim_of(s.subrange(0, k));
                let rest = lines_clean(s.subrange(k + 1, s.len() as int));
                if line.len() > 0 {
                    seq![line] + rest
                } else {
                    rest
                }
            } else {
                Seq::empty()
            }
        },
    }
}

/// The views of a list of lines.
pub open spec fn lines_view(v: Seq<String>) -> Seq<Seq<char>> {
    v.map_values(|x: String| x@)
}

proof fn lemma_first_nl_found(s: Seq<char>, lo: int, d: int)
    requires
        0 <= lo <= d < s.len(),
        s[d] == '\n',
        forall|k: int| lo <= k < d ==> s[k] != '\n',
    ensures
        first_nl(s, lo) == Some(d),
    decreases d - lo,
{
    if lo < d {
        lemma_first_nl_found(s, lo + 1, d);
    }
}

proof fn lemma_first_nl_none(s: Seq<char>, lo: int)
    requires
        0 <= lo,
        forall|k: int| lo <= k < s.len() ==> s[k] != '\n',
    ensures
        first_nl(s, lo) is None,
    decreases s.len() - lo,
{
    if lo < s.len() {
        lemma_first_nl_none(s, lo + 1);
    }
}

proof fn lemma_lead_ws_end_is(s: Seq<char>, i: int, e: int)
    requires
        0 <= i <= e <= s.len(),
        forall|k: int| i <= k < e ==> is_space(s[k]),
        e == s.len() || !is_space(s[e]),
    ensures
        lead_ws_end(s, i) == e,
    decreases e - i,
{
    if i < e {
        lemma_lead_ws_end_is(s, i + 1, e);
    }
}

proof fn lemma_tail_ws_start_is(s: Seq<char>, b: int)
    requires
        0 <= b <= s.len(),
        forall|k: int| b <= k < s.len() ==> is_space(s[k]),
        b == 0 || !is_space(s[b - 1]),
    ensures
        tail_ws_start(s) == b,
    decreases s.len(),
{
    if s.len() > b {
        assert(is_space(s.last()));
        assert(forall|k: int| b <= k < s.drop_last().len() ==> is_space(s.drop_last()[k]));
        if b > 0 {
            assert(s.drop_last()[b - 1] == s[b - 1]);
        }
        lemma_tail_ws_start_is(s.drop_last(), b);
    }
}

/// The first `'\n'` of the text, if any.
fn find_nl(s: &str, n: usize) -> (r: Option<usize>)
    requires
        n == s@.len(),
    ensures
        match r {
            Some(d) => first_nl(s@, 0) == Some(d as int) && d < n,
            None => first_nl(s@, 0) is None,
        },
{
    let mut i: usize = 0;
    while i < n
        invariant
            i <= n,
            n == s@.len(),
            forall|k: int| 0 <= k < i ==> s@[k] != '\n',
        decreases n - i,
    {
        if s.get_char(i) == '\n' {
            proof {
                lemma_first_nl_found(s@, 0, i as int);
            }
            return Some(i);
        }
        i += 1;
    }
    proof {
        lemma_first_nl_none(s@, 0);
    }
    None
}

/// The text with leading and trailing whitespace removed.
fn trim_text(s: &str, n: usize) -> (r: String)
    requires
        n == s@.len(),
    ensures
        r@ == trim_of(s@),
{
    let mut a: usize = 0;
    while a < n && space_char(s.get_char(a))
        invariant
            a <= n,
            n == s@.len(),
            forall|k: int| 0 <= k < a ==> is_space(s@[k]),
        decreases n - a,
    {
        a += 1;
    }
    proof {
        lemma_lead_ws_end_is(s@, 0, a as int);
    }
    let mut b: usize = n;
    let mut more = true;
    while more && b > a
        invariant
            a <= b <= n,
            n == s@.len(),
            forall|k: int| 0 <= k < a ==> is_space(s@[k]),
            forall|k: int| b <= k < n ==> is_space(s@[k]),
            !more ==> a < b && !is_space(s@[b - 1]),
        decreases b + (if more {
            1int
        } else {
            0int
        }),
    {
        if space_char(s.get_char(b - 1)) {
            b -= 1;
        } else {
            more = false;
        }
    }
    if a >= b {
        proof {
            assert(b == a);
            assert forall|k: int| 0 <= k < n implies is_space(s@[k]) by {}
            lemma_tail_ws_start_is(s@, 0);
            assert(lead_ws_end(s@, 0) >= tail_ws_start(s@));
            assert(trim_of(s@).len() == 0);
        }
        String::new()
    } else {
        proof {
            assert(!is_space(s@[b - 1]));
            lemma_tail_ws_start_is(s@, b as int);
        }
        s.substring_char(a, b).to_owned()
    }
}

fn lines_rec(s: &str, n: usize) -> (r: Vec<String>)
    requires
        n == s@.len(),
    ensures
        lines_view(r@) == lines_clean(s@),
    decreases n,
{
    match find_nl(s, n) {
        None => {
            let t = trim_text(s, n);
            let mut r: Vec<String> = Vec::new();
            if t.as_str().unicode_len() > 0 {
                r.push(t);
                proof {
                    assert(lines_view(r@) =~= lines_clean(s@));
                }
            } else {
                proof {
                    assert(lines_view(r@) =~= lines_clean(s@));
                }
            }
            r
        },
        Some(k) => {
            let line = s.substring_char(0, k);
            let t = trim_text(line, k);
            let tail = s.substring_char(k + 1, n);
            let mut r = lines_rec(tail, n - k - 1);
            if t.as_str().unicode_len() > 0 {
                r.insert(0, t);
                proof {
                    assert(lines_view(r@) =~= seq![trim_of(s@.subrange(0, k as int))]
                        + lines_view(r@.subrange(1, r@.len() as int)));
                    assert(r@.subrange(1, r@.len() as int) =~= r@.drop_first());
                    assert(lines_view(r@.drop_first()) =~= lines_clean(
                        s@.subrange(k as int + 1, s@.len() as int),
                    ));
                    assert(lines_view(r@) =~= lines_clean(s@));
                }
            } else {
                proof {
                    assert(lines_view(r@) =~= lines_clean(s@));
                }
            }
            r
        },
    }
}

/// Splits guidance text into its trimmed, nonempty lines, in order.
pub fn guidance_lines(text: &str) -> (r: Vec<String>)
    ensures
        lines_view(r@) == lines_clean(text@),
{
    let n = text.unicode_len();
    lines_rec(text, n)
}

// ---------------------------------------------------------------------------
// The task interface
// ---------------------------------------------------------------------------

/// A unit of agent work: what to tell the model, what to ask it, and which
/// tools it may use.  Defaults: fifty history entries are visible, no
/// namespace filter, and guidance is the built-in base guidance; override
/// only what differs.
pub trait Task {
    /// The persona and instruction block handed to the model.
    fn to_system_prompt(&self) -> (r: Result<String, String>);

    /// The current prompt handed to the model.
    fn to_prompt(&self) -> (r: Result<String, String>);

    /// The tool groups brought along for the model to use.
    fn get_functions(&self) -> (r: Vec<Namespace>);

    /// How many history entries the model may see.
    fn max_history_visibility(&self) -> (r: u16) {
        50
    }

    /// The guidance lines; by default the base guidance.
    fn guidance(&self) -> (r: Result<Vec<String>, String>) {
        self.base_guidance()
    }

    /// An optional filter naming the usable namespaces.
    fn namespaces(&self) -> (r: Option<Vec<String>>) {
        None
    }

    /// The built-in rules every task extends: the base guidance text, split
    /// into trimmed, nonempty lines.
    fn base_guidance(&self) -> (r: Result<Vec<String>, String>) {
        Ok(
            guidance_lines(
                "Keep your responses short and to the point.\nUse only the tools you were given.\nWhen the goal is reached, say so.\n",
            ),
        )
    }
}

} // verus!
