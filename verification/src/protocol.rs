//! The tool-call extraction protocol: for backends without native function
//! calling, the tool catalog is rendered into an in-prompt system message
//! that teaches the model a call marker of the form
//! `<<name key="value" other="value">>`, and raw model text is parsed back
//! into structured invocations.  Text without a marker is a valid plain
//! reply; a marker that is malformed, names an unknown tool, or carries bad
//! arguments yields a structured error the caller can feed back to the
//! model.

use vstd::prelude::*;
use crate::conversation::{args_view, keys_unique, Invocation};

verus! {

/// One tool of the catalog: its name, a human-readable description, and the
/// names of the parameters it accepts.
#[derive(Clone, Debug)]
pub struct ToolDescriptor {
    pub name: String,
    pub description: String,
    pub parameters: Vec<String>,
}

/// The mathematical view of a tool descriptor.
pub struct ToolView {
    pub name: Seq<char>,
    pub description: Seq<char>,
    pub parameters: Seq<Seq<char>>,
}

impl View for ToolDescriptor {
    type V = ToolView;

    open spec fn view(&self) -> ToolView {
        ToolView {
            name: self.name@,
            description: self.description@,
            parameters: self.parameters@.map_values(|p: String| p@),
        }
    }
}

/// The views of a catalog's descriptors.
pub open spec fn tools_view(ts: Seq<ToolDescriptor>) -> Seq<ToolView> {
    ts.map_values(|t: ToolDescriptor| t@)
}

/// A group of related tools, as a task advertises them.
#[derive(Clone, Debug)]
pub struct Namespace {
    pub name: String,
    pub description: String,
    pub tools: Vec<ToolDescriptor>,
}

/// Why extraction failed.
#[derive(Clone, Copy, Debug, PartialEq, Eq, Structural)]
pub enum ExtractionKind {
    /// A call marker was found but its shape is broken.
    MalformedCall,
    /// The called name is not in the catalog.
    UnknownTool,
    /// An argument key is not a parameter of the called tool.
    UnknownArgument,
    /// The same argument key appears twice.
    DuplicateArgument,
    /// A lower-level provider error mapped into this shape.
    Provider,
}

/// A structured extraction failure: what went wrong and the offending token
/// or message.
#[derive(Clone, Debug)]
pub struct ExtractionError {
    pub kind: ExtractionKind,
    pub detail: String,
}

/// A normalized chat result: the reply text (with any call marker removed)
/// and the invocations resolved from it.
#[derive(Clone, Debug)]
pub struct ChatTurn {
    pub text: String,
    pub invocations: Vec<Invocation>,
}

// ---------------------------------------------------------------------------
// The call-marker grammar
// ---------------------------------------------------------------------------

/// A call marker opens at `i`.
pub open spec fn marker_at(s: Seq<char>, i: int) -> bool {
    0 <= i && i + 2 <= s.len() && s[i] == '<' && s[i + 1] == '<'
}

/// The text holds a call marker somewhere.
pub open spec fn has_marker(s: Seq<char>) -> bool {
    exists|i: int| marker_at(s, i)
}

/// The first marker at or after `i`, if any.
pub open spec fn first_marker(s: Seq<char>, i: int) -> Option<int>
    decreases s.len() - i,
{
    if i >= s.len() {
        None
    } else if marker_at(s, i) {
        Some(i)
    } else {
        first_marker(s, i + 1)
    }
}

/// Characters a tool or argument name may consist of.
pub open spec fn name_char(c: char) -> bool {
    c != ' ' && c != '"' && c != '=' && c != '<' && c != '>'
}

fn name_char_exec(c: char) -> (b: bool)
    ensures
        b == name_char(c),
{
    c != ' ' && c != '"' && c != '=' && c != '<' && c != '>'
}

/// The end of the run of name characters starting at `p`.
pub open spec fn name_end(s: Seq<char>, p: int) -> int
    decreases s.len() - p,
{
    if p < 0 || p >= s.len() {
        p
    } else if name_char(s[p]) {
        name_end(s, p + 1)
    } else {
        p
    }
}

/// The position of the first `'"'` at or after `p`, or the text's end.
pub open spec fn quote_end(s: Seq<char>, p: int) -> int
    decreases s.len() - p,
{
    if p < 0 || p >= s.len() {
        p
    } else if s[p] == '"' {
        p
    } else {
        quote_end(s, p + 1)
    }
}

/// Parses the argument list and closing `>>` from position `p`: either the
/// parsed pairs with the position right after the marker, or nothing when
/// the shape is broken.
pub open spec fn parse_pairs(s: Seq<char>, p: int) -> Option<(Seq<(Seq<char>, Seq<char>)>, int)>
    decreases s.len() - p,
{
    if p + 2 <= s.len() && s[p] == '>' && s[p + 1] == '>' {
        Some((Seq::empty(), p + 2))
    } else if 0 <= p && p < s.len() && s[p] == ' ' {
        let ke = name_end(s, p + 1);
        let vs = ke + 2;
        let ve = quote_end(s, vs);
        if ke > p + 1 && ke + 1 < s.len() && s[ke] == '=' && s[ke + 1] == '"' && vs <= ve
            && ve < s.len() {
            match parse_pairs(s, ve + 1) {
                Some((rest, close)) => Some(
                    (seq![(s.subrange(p + 1, ke), s.subrange(vs, ve))] + rest, close),
                ),
                None => None,
            }
        } else {
            None
        }
    } else {
        None
    }
}

/// Parses the first call marker of `s`: the called name, its arguments, and
/// the residual plain text around the marker; or nothing when the marker is
/// malformed.  Meaningful only when `has_marker(s)`.
pub open spec fn marker_parse(s: Seq<char>) -> Option<
    (Seq<char>, Seq<(Seq<char>, Seq<char>)>, Seq<char>),
> {
    match first_marker(s, 0) {
        Some(i) => {
            let ne = name_end(s, i + 2);
            if ne > i + 2 {
                match parse_pairs(s, ne) {
                    Some((args, close)) => Some(
                        (s.subrange(i + 2, ne), args, s.subrange(0, i) + s.subrange(
                            close,
                            s.len() as int,
                        )),
                    ),
                    None => None,
                }
            } else {
                None
            }
        },
        None => None,
    }
}

/// The first catalog entry named `name` at or after `k`, if any.
pub open spec fn first_tool(tools: Seq<ToolView>, name: Seq<char>, k: int) -> Option<int>
    decreases tools.len() - k,
{
    if k < 0 || k >= tools.len() {
        None
    } else if tools[k].name == name {
        Some(k)
    } else {
        first_tool(tools, name, k + 1)
    }
}

/// `key` is one of the listed parameter names.
pub open spec fn key_listed(params: Seq<Seq<char>>, key: Seq<char>) -> bool {
    exists|j: int| 0 <= j < params.len() && params[j] == key
}

/// Every argument key is a parameter of the tool.
pub open spec fn args_listed(params: Seq<Seq<char>>, args: Seq<(Seq<char>, Seq<char>)>) -> bool {
    forall|a: int| 0 <= a < args.len() ==> key_listed(params, #[trigger] args[a].0)
}

/// Everything `extract_call` promises: text without a marker comes back
/// verbatim with no invocations; a malformed marker, an unknown tool, a
/// duplicate key, and an unknown key each yield their error; and a
/// well-formed call on a known tool yields exactly one invocation carrying
/// the called name and arguments, plus the residual text.
pub open spec fn parse_post(
    s: Seq<char>,
    tools: Seq<ToolView>,
    r: Result<ChatTurn, ExtractionError>,
) -> bool {
    if !has_marker(s) {
        &&& r matches Ok(t)
        &&& r->Ok_0.text@ == s
        &&& r->Ok_0.invocations@.len() == 0
    } else {
        match marker_parse(s) {
            None => r matches Err(e) && e.kind == ExtractionKind::MalformedCall,
            Some((name, args, residual)) => {
                if first_tool(tools, name, 0) is None {
                    &&& r matches Err(e)
                    &&& r->Err_0.kind == ExtractionKind::UnknownTool
                    &&& r->Err_0.detail@ == name
                } else if !keys_unique(args) {
                    r matches Err(e) && e.kind == ExtractionKind::DuplicateArgument
                } else if !args_listed(tools[first_tool(tools, name, 0)->Some_0].parameters, args) {
                    r matches Err(e) && e.kind == ExtractionKind::UnknownArgument
                } else {
                    &&& r matches Ok(t)
                    &&& r->Ok_0.text@ == residual
                    &&& r->Ok_0.invocations@.len() == 1
                    &&& r->Ok_0.invocations@[0].action@ == name
                    &&& args_view(r->Ok_0.invocations@[0].arguments@) == args
                    &&& r->Ok_0.invocations@[0].payload is None
                    &&& r->Ok_0.invocations@[0].wf()
                }
            },
        }
    }
}

// ---------------------------------------------------------------------------
// Scan lemmas
// ---------------------------------------------------------------------------

proof fn lemma_first_marker_found(s: Seq<char>, lo: int, i: int)
    requires
        0 <= lo <= i,
        marker_at(s, i),
        forall|k: int| lo <= k < i ==> !marker_at(s, k),
    ensures
        first_marker(s, lo) == Some(i),
    decreases i - lo,
{
    if lo < i {
        lemma_first_marker_found(s, lo + 1, i);
    }
}

proof fn lemma_first_marker_none(s: Seq<char>, lo: int)
    requires
        0 <= lo,
        forall|k: int| lo <= k ==> !marker_at(s, k),
    ensures
        first_marker(s, lo) is None,
    decreases s.len() - lo,
{
    if lo < s.len() {
        lemma_first_marker_none(s, lo + 1);
    }
}

proof fn lemma_name_end_is(s: Seq<char>, p: int, e: int)
    requires
        0 <= p <= e <= s.len(),
        forall|k: int| p <= k < e ==> name_char(s[k]),
        e == s.len() || !name_char(s[e]),
    ensures
        name_end(s, p) == e,
    decreases e - p,
{
    if p < e {
        lemma_name_end_is(s, p + 1, e);
    }
}

proof fn lemma_quote_end_is(s: Seq<char>, p: int, e: int)
    requires
        0 <= p <= e <= s.len(),
        forall|k: int| p <= k < e ==> s[k] != '"',
        e == s.len() || s[e] == '"',
    ensures
        quote_end(s, p) == e,
    decreases e - p,
{
    if p < e {
        lemma_quote_end_is(s, p + 1, e);
    }
}

proof fn lemma_first_tool_found(tools: Seq<ToolView>, name: Seq<char>, lo: int, i: int)
    requires
        0 <= lo <= i < tools.len(),
        tools[i].name == name,
        forall|k: int| lo <= k < i ==> tools[k].name != name,
    ensures
        first_tool(tools, name, lo) == Some(i),
    decreases i - lo,
{
    if lo < i {
        lemma_first_tool_found(tools, name, lo + 1, i);
    }
}

proof fn lemma_first_tool_none(tools: Seq<ToolView>, name: Seq<char>, lo: int)
    requires
        0 <= lo,
        forall|k: int| lo <= k < tools.len() ==> tools[k].name != name,
    ensures
        first_tool(tools, name, lo) is None,
    decreases tools.len() - lo,
{
    if lo < tools.len() {
        lemma_first_tool_none(tools, name, lo + 1);
    }
}

// ---------------------------------------------------------------------------
// Executable text helpers
// ---------------------------------------------------------------------------

/// Whether two pieces of text hold the same characters.
pub(crate) fn str_eq(a: &str, b: &str) -> (r: bool)
    ensures
        r == (a@ == b@),
{
    let na = a.unicode_len();
    let nb = b.unicode_len();
    if na != nb {
        return false;
    }
    let mut k: usize = 0;
    while k < na
        invariant
            k <= na,
            na == a@.len(),
            na == b@.len(),
            forall|k2: int| 0 <= k2 < k ==> a@[k2] == b@[k2],
        decreases na - k,
    {
        if a.get_char(k) != b.get_char(k) {
            assert(a@[k as int] != b@[k as int]);
            return false;
        }
        k += 1;
    }
    proof {
        assert(a@ =~= b@);
    }
    true
}

/// The first call marker of the text, if any.
fn find_marker(s: &str, n: usize) -> (r: Option<usize>)
    requires
        n == s@.len(),
    ensures
        match r {
            Some(i) => first_marker(s@, 0) == Some(i as int) && marker_at(s@, i as int),
            None => first_marker(s@, 0) is None && !has_marker(s@),
        },
{
    let mut i: usize = 0;
    while i < n
        invariant
            i <= n,
            n == s@.len(),
            forall|k: int| 0 <= k < i ==> !marker_at(s@, k),
        decreases n - i,
    {
        if i + 1 < n && s.get_char(i) == '<' && s.get_char(i + 1) == '<' {
            assert(marker_at(s@, i as int));
            proof {
                lemma_first_marker_found(s@, 0, i as int);
            }
            return Some(i);
        }
        assert(!marker_at(s@, i as int));
        i += 1;
    }
    proof {
        lemma_first_marker_none(s@, 0);
    }
    None
}

/// The end of the run of name characters starting at `p`.
fn scan_name(s: &str, n: usize, p: usize) -> (e: usize)
    requires
        n == s@.len(),
        p <= n,
    ensures
        e as int == name_end(s@, p as int),
        p <= e <= n,
{
    let mut e = p;
    while e < n
        invariant
            p <= e <= n,
            n == s@.len(),
            forall|k: int| p <= k < e ==> name_char(s@[k]),
        decreases n - e,
    {
        if !name_char_exec(s.get_char(e)) {
            proof {
                lemma_name_end_is(s@, p as int, e as int);
            }
            return e;
        }
        e += 1;
    }
    proof {
        lemma_name_end_is(s@, p as int, n as int);
    }
    e
}

/// The position of the first `'"'` at or after `p`, or the text's end.
fn scan_quote(s: &str, n: usize, p: usize) -> (e: usize)
    requires
        n == s@.len(),
        p <= n,
    ensures
        e as int == quote_end(s@, p as int),
        p <= e <= n,
{
    let mut e = p;
    while e < n
        invariant
            p <= e <= n,
            n == s@.len(),
            forall|k: int| p <= k < e ==> s@[k] != '"',
        decreases n - e,
    {
        if s.get_char(e) == '"' {
            proof {
                lemma_quote_end_is(s@, p as int, e as int);
            }
            return e;
        }
        e += 1;
    }
    proof {
        lemma_quote_end_is(s@, p as int, n as int);
    }
    e
}

/// Parses the argument pairs and closing `>>` from `p`, mirroring
/// `parse_pairs`.
fn pairs_exec(s: &str, n: usize, p: usize) -> (r: Option<(Vec<(String, String)>, usize)>)
    requires
        n == s@.len(),
        p <= n,
    ensures
        match r {
            Some(av) => parse_pairs(s@, p as int) == Some((args_view(av.0@), av.1 as int)) && av.1
                <= n,
            None => parse_pairs(s@, p as int) is None,
        },
    decreases n - p,
{
    if p < n && n - p > 1 && s.get_char(p) == '>' && s.get_char(p + 1) == '>' {
        let out: Vec<(String, String)> = Vec::new();
        proof {
            assert(args_view(out@) =~= Seq::<(Seq<char>, Seq<char>)>::empty());
        }
        return Some((out, p + 2));
    }
    if p < n && s.get_char(p) == ' ' {
        let ke = scan_name(s, n, p + 1);
        if ke > p + 1 && n - ke > 1 {
            if s.get_char(ke) == '=' && s.get_char(ke + 1) == '"' {
                let vs = ke + 2;
                let ve = scan_quote(s, n, vs);
                if ve < n {
                    let key = s.substring_char(p + 1, ke).to_owned();
                    let val = s.substring_char(vs, ve).to_owned();
                    match pairs_exec(s, n, ve + 1) {
                        Some((rest, close)) => {
                            let mut out = rest;
                            out.insert(0, (key, val));
                            proof {
                                assert(args_view(out@) =~= seq![
                                    (s@.subrange(p + 1, ke as int), s@.subrange(
                                        vs as int,
                                        ve as int,
                                    )),
                                ] + args_view(out@.subrange(1, out@.len() as int)));
                                assert(out@.subrange(1, out@.len() as int) =~= rest@);
                            }
                            return Some((out, close));
                        },
                        None => {
                            return None;
                        },
                    }
                } else {
                    return None;
                }
            } else {
                return None;
            }
        } else {
            return None;
        }
    }
    None
}

// ---------------------------------------------------------------------------
// Validation against the catalog
// ---------------------------------------------------------------------------

/// The first catalog entry with the given name.
fn find_tool(tools: &Vec<ToolDescriptor>, name: &str) -> (r: Option<usize>)
    ensures
        match r {
            Some(ti) => first_tool(tools_view(tools@), name@, 0) == Some(ti as int) && ti
                < tools.len(),
            None => first_tool(tools_view(tools@), name@, 0) is None,
        },
{
    let mut k: usize = 0;
    while k < tools.len()
        invariant
            k <= tools.len(),
            forall|k2: int| 0 <= k2 < k ==> tools_view(tools@)[k2].name != name@,
        decreases tools.len() - k,
    {
        if str_eq(tools[k].name.as_str(), name) {
            assert(tools_view(tools@)[k as int].name == name@);
            proof {
                lemma_first_tool_found(tools_view(tools@), name@, 0, k as int);
            }
            return Some(k);
        }
        assert(tools_view(tools@)[k as int].name != name@);
        k += 1;
    }
    proof {
        lemma_first_tool_none(tools_view(tools@), name@, 0);
    }
    None
}

/// Whether the argument keys are pairwise distinct.
fn keys_unique_check(args: &Vec<(String, String)>) -> (b: bool)
    ensures
        b == keys_unique(args_view(args@)),
{
    let ghost av = args_view(args@);
    let mut x: usize = 0;
    while x < args.len()
        invariant
            x <= args.len(),
            av == args_view(args@),
            forall|i: int, j: int| 0 <= i < j < args@.len() && i < x ==> av[i].0 != av[j].0,
        decreases args.len() - x,
    {
        let mut y: usize = x + 1;
        while y < args.len()
            invariant
                x < y <= args.len() || y == x + 1,
                y <= args.len(),
                x < args.len(),
                av == args_view(args@),
                forall|j: int| x < j < y ==> av[x as int].0 != av[j].0,
            decreases args.len() - y,
        {
            if str_eq(args[x].0.as_str(), args[y].0.as_str()) {
                assert(av[x as int].0 == av[y as int].0);
                return false;
            }
            assert(av[x as int].0 != av[y as int].0);
            y += 1;
        }
        x += 1;
    }
    true
}

/// Whether every argument key is a parameter of the tool.
fn args_listed_check(params: &Vec<String>, args: &Vec<(String, String)>) -> (b: bool)
    ensures
        b == args_listed(params@.map_values(|p: String| p@), args_view(args@)),
{
    let ghost pv = params@.map_values(|p: String| p@);
    let ghost av = args_view(args@);
    let mut a: usize = 0;
    while a < args.len()
        invariant
            a <= args.len(),
            pv == params@.map_values(|p: String| p@),
            av == args_view(args@),
            forall|a2: int| 0 <= a2 < a ==> key_listed(pv, #[trigger] av[a2].0),
        decreases args.len() - a,
    {
        let mut j: usize = 0;
        let mut hit = false;
        while j < params.len() && !hit
            invariant
                j <= params.len(),
                a < args.len(),
                pv == params@.map_values(|p: String| p@),
                av == args_view(args@),
                hit ==> key_listed(pv, av[a as int].0),
                !hit ==> forall|j2: int| 0 <= j2 < j ==> pv[j2] != av[a as int].0,
            decreases params.len() - j + (if hit {
                0int
            } else {
                1int
            }),
        {
            if str_eq(params[j].as_str(), args[a].0.as_str()) {
                assert(pv[j as int] == av[a as int].0);
                hit = true;
            } else {
                assert(pv[j as int] != av[a as int].0);
                j += 1;
            }
        }
        if !hit {
            assert(!key_listed(pv, av[a as int].0));
            return false;
        }
        a += 1;
    }
    true
}

// ---------------------------------------------------------------------------
// The central extraction algorithm
// ---------------------------------------------------------------------------

/// Scans raw model text for the first call marker `<<name key="value" ...>>`,
/// validates the called name and arguments against the catalog, and returns
/// either the normalized turn or a structured extraction error, exactly as
/// `parse_post` states.
pub fn extract_call(input: &str, tools: &Vec<ToolDescriptor>) -> (r: Result<
    ChatTurn,
    ExtractionError,
>)
    ensures
        parse_post(input@, tools_view(tools@), r),
{
    let n = input.unicode_len();
    let i = match find_marker(input, n) {
        None => {
            return Ok(ChatTurn { text: input.to_owned(), invocations: Vec::new() });
        },
        Some(i) => i,
    };
    let ne = scan_name(input, n, i + 2);
    if ne == i + 2 {
        return Err(
            ExtractionError {
                kind: ExtractionKind::MalformedCall,
                detail: String::from_str("call marker names no tool"),
            },
        );
    }
    let (args, close) = match pairs_exec(input, n, ne) {
        None => {
            return Err(
                ExtractionError {
                    kind: ExtractionKind::MalformedCall,
                    detail: String::from_str("call marker arguments are malformed"),
                },
            );
        },
        Some(ac) => ac,
    };
    let name = input.substring_char(i + 2, ne).to_owned();
    let ti = match find_tool(tools, name.as_str()) {
        None => {
            return Err(ExtractionError { kind: ExtractionKind::UnknownTool, detail: name });
        },
        Some(ti) => ti,
    };
    if !keys_unique_check(&args) {
        return Err(
            ExtractionError {
                kind: ExtractionKind::DuplicateArgument,
                detail: String::from_str("an argument key appears twice"),
            },
        );
    }
    if !args_listed_check(&tools[ti].parameters, &args) {
        return Err(
            ExtractionError {
                kind: ExtractionKind::UnknownArgument,
                detail: String::from_str("an argument is no parameter of the tool"),
            },
        );
    }
    let inv = Invocation::new(name, args, None);
    let mut text = input.substring_char(0, i).to_owned();
    text.append(input.substring_char(close, n));
    let mut invocations: Vec<Invocation> = Vec::new();
    invocations.push(inv);
    Ok(ChatTurn { text, invocations })
}

// ---------------------------------------------------------------------------
// Rendering calls and the system message
// ---------------------------------------------------------------------------

/// How an argument list renders inside a call marker.
pub open spec fn render_args(args: Seq<(Seq<char>, Seq<char>)>) -> Seq<char>
    decreases args.len(),
{
    if args.len() == 0 {
        Seq::empty()
    } else {
        " "@ + args[0].0 + "=\""@ + args[0].1 + "\""@ + render_args(args.drop_first())
    }
}

/// How a whole call renders: `<<name key="value" ...>>`.
pub open spec fn render_call(name: Seq<char>, args: Seq<(Seq<char>, Seq<char>)>) -> Seq<char> {
    "<<"@ + name + render_args(args) + ">>"@
}

fn render_args_text(args: &Vec<(String, String)>, k: usize) -> (r: String)
    requires
        k <= args.len(),
    ensures
        r@ == render_args(args_view(args@).skip(k as int)),
    decreases args.len() - k,
{
    let ghost av = args_view(args@);
    if k == args.len() {
        proof {
            assert(av.skip(k as int) =~= Seq::empty());
        }
        String::new()
    } else {
        let mut r = String::from_str(" ");
        r.append(args[k].0.as_str());
        r.append("=\"");
        r.append(args[k].1.as_str());
        r.append("\"");
        let rest = render_args_text(args, k + 1);
        r.append(rest.as_str());
        proof {
            assert(av.skip(k as int)[0] == av[k as int]);
            assert(av.skip(k as int).drop_first() =~= av.skip(k as int + 1));
            assert(r@ =~= render_args(av.skip(k as int)));
        }
        r
    }
}

/// Renders one call marker for the given tool name and arguments.
pub fn render_call_text(name: &str, args: &Vec<(String, String)>) -> (r: String)
    ensures
        r@ == render_call(name@, args_view(args@)),
{
    let mut r = String::from_str("<<");
    r.append(name);
    let a = render_args_text(args, 0);
    r.append(a.as_str());
    r.append(">>");
    proof {
        assert(args_view(args@).skip(0) =~= args_view(args@));
        assert(r@ =~= render_call(name@, args_view(args@)));
    }
    r
}

/// Each parameter shown with itself as a placeholder value.
pub open spec fn example_args(params: Seq<Seq<char>>) -> Seq<(Seq<char>, Seq<char>)> {
    params.map_values(|p: Seq<char>| (p, p))
}

/// How one catalog entry renders in the system message.
pub open spec fn tool_block(t: ToolView) -> Seq<char> {
    "\n- "@ + t.name + ": "@ + t.description + "\n  usage: "@ + render_call(
        t.name,
        example_args(t.parameters),
    )
}

/// The opening line of the system message.
pub open spec fn catalog_header() -> Seq<char> {
    "To call a tool, reply with a marker of the form <<name key=\"value\">>.\nAvailable tools:"@
}

/// The whole system message for a catalog.
pub open spec fn sys_message(tools: Seq<ToolView>) -> Seq<char>
    decreases tools.len(),
{
    if tools.len() == 0 {
        catalog_header()
    } else {
        sys_message(tools.drop_last()) + tool_block(tools.last())
    }
}

fn tool_block_text(t: &ToolDescriptor) -> (r: String)
    ensures
        r@ == tool_block(t@),
{
    let mut ex: Vec<(String, String)> = Vec::new();
    let mut j: usize = 0;
    while j < t.parameters.len()
        invariant
            j <= t.parameters.len(),
            ex@.len() == j,
            forall|m: int| 0 <= m < j ==> (#[trigger] ex@[m]).0@ == t@.parameters[m] && ex@[m].1@
                == t@.parameters[m],
        decreases t.parameters.len() - j,
    {
        let p = t.parameters[j].as_str().to_owned();
        let q = t.parameters[j].as_str().to_owned();
        ex.push((p, q));
        j += 1;
    }
    proof {
        assert(args_view(ex@) =~= example_args(t@.parameters));
    }
    let mut r = String::from_str("\n- ");
    r.append(t.name.as_str());
    r.append(": ");
    r.append(t.description.as_str());
    r.append("\n  usage: ");
    let call = render_call_text(t.name.as_str(), &ex);
    r.append(call.as_str());
    proof {
        assert(r@ =~= tool_block(t@));
    }
    r
}

/// Renders the whole catalog into the in-prompt system message that teaches
/// the model the call syntax.
pub fn sys_message_text(tools: &Vec<ToolDescriptor>) -> (r: String)
    ensures
        r@ == sys_message(tools_view(tools@)),
{
    let ghost tv = tools_view(tools@);
    let mut r = String::from_str(
        "To call a tool, reply with a marker of the form <<name key=\"value\">>.\nAvailable tools:",
    );
    let mut k: usize = 0;
    while k < tools.len()
        invariant
            k <= tools.len(),
            tv == tools_view(tools@),
            r@ == sys_message(tv.take(k as int)),
        decreases tools.len() - k,
    {
        let b = tool_block_text(&tools[k]);
        r.append(b.as_str());
        proof {
            assert(tv.take(k as int + 1).drop_last() =~= tv.take(k as int));
            assert(tv.take(k as int + 1).last() == tv[k as int]);
        }
        k += 1;
    }
    proof {
        assert(tv.take(tools@.len() as int) =~= tv);
    }
    r
}

// ---------------------------------------------------------------------------
// Laws of the extraction protocol
// ---------------------------------------------------------------------------

/// A usable tool or argument name: nonempty, of name characters only.
pub open spec fn valid_name(name: Seq<char>) -> bool {
    name.len() > 0 && forall|k: int| 0 <= k < name.len() ==> name_char(name[k])
}

/// A renderable argument value: free of the `'"'` that closes it.
pub open spec fn valid_value(v: Seq<char>) -> bool {
    forall|k: int| 0 <= k < v.len() ==> v[k] != '"'
}

/// Arguments a call marker can carry and render faithfully.
pub open spec fn valid_args(args: Seq<(Seq<char>, Seq<char>)>) -> bool {
    forall|a: int| 0 <= a < args.len() ==> valid_name((#[trigger] args[a]).0) && valid_value(
        args[a].1,
    )
}

/// Text-only law: input without a call marker parses to itself with no
/// invocations, and parsing the reproduced text again gives the same, so
/// extraction is idempotent on plain text.
pub proof fn lemma_parse_text_only(
    s: Seq<char>,
    tools: Seq<ToolView>,
    r1: Result<ChatTurn, ExtractionError>,
    r2: Result<ChatTurn, ExtractionError>,
)
    requires
        !has_marker(s),
        parse_post(s, tools, r1),
        parse_post(r1->Ok_0.text@, tools, r2),
    ensures
        r1 is Ok,
        r1->Ok_0.text@ == s,
        r1->Ok_0.invocations@.len() == 0,
        r2 is Ok,
        r2->Ok_0.text@ == s,
        r2->Ok_0.invocations@.len() == 0,
{
}

/// Unknown-tool law: a well-formed call marker whose name is not in the
/// catalog yields an extraction error naming it, never a silent success.
pub proof fn lemma_unknown_tool_errors(
    s: Seq<char>,
    tools: Seq<ToolView>,
    r: Result<ChatTurn, ExtractionError>,
)
    requires
        has_marker(s),
        marker_parse(s) is Some,
        first_tool(tools, marker_parse(s)->Some_0.0, 0) is None,
        parse_post(s, tools, r),
    ensures
        r is Err,
        r->Err_0.kind == ExtractionKind::UnknownTool,
        r->Err_0.detail@ == marker_parse(s)->Some_0.0,
{
}

proof fn lemma_parse_pairs_of_render(s: Seq<char>, p: int, args: Seq<(Seq<char>, Seq<char>)>)
    requires
        0 <= p <= s.len(),
        valid_args(args),
        s.subrange(p, s.len() as int) == render_args(args) + ">>"@,
    ensures
        parse_pairs(s, p) == Some((args, s.len() as int)),
    decreases args.len(),
{
    reveal_strlit(">>");
    reveal_strlit(" ");
    reveal_strlit("=\"");
    reveal_strlit("\"");
    let tail = render_args(args) + ">>"@;
    assert forall|t: int| 0 <= t < tail.len() implies s[p + t] == tail[t] by {
        assert(s.subrange(p, s.len() as int)[t] == s[p + t]);
    }
    assert(s.len() - p == tail.len());
    if args.len() == 0 {
        assert(render_args(args).len() == 0);
        assert(tail.len() == 2);
        assert(s.len() == p + 2);
        assert(s[p + 0] == tail[0]);
        assert(s[p + 1] == tail[1]);
        assert(tail[0] == '>' && tail[1] == '>');
        assert(args =~= Seq::<(Seq<char>, Seq<char>)>::empty());
    } else {
        let key = args[0].0;
        let val = args[0].1;
        let kl = key.len() as int;
        let vl = val.len() as int;
        let rest = args.drop_first();
        assert(render_args(args) == " "@ + key + "=\""@ + val + "\""@ + render_args(rest));
        assert(render_args(args).len() == 4 + kl + vl + render_args(rest).len());
        assert(tail.len() == 6 + kl + vl + render_args(rest).len());
        assert(tail[0] == ' ');
        assert forall|k: int| 0 <= k < kl implies tail[1 + k] == key[k] by {}
        assert(tail[1 + kl] == '=');
        assert(tail[2 + kl] == '"');
        assert forall|k: int| 0 <= k < vl implies tail[3 + kl + k] == val[k] by {}
        assert(tail[3 + kl + vl] == '"');
        // the key run
        assert(s[p] == ' ');
        assert(s[p] != '>');
        let ke = p + 1 + kl;
        assert forall|k: int| p + 1 <= k < ke implies name_char(s[k]) by {
            assert(s[k] == tail[k - p]);
            assert(tail[k - p] == key[k - p - 1]);
            assert(valid_name(args[0].0));
        }
        assert(!name_char(s[ke]));
        lemma_name_end_is(s, p + 1, ke);
        assert(s[ke] == '=');
        assert(s[ke + 1] == '"');
        // the value run
        let vs = ke + 2;
        let ve = vs + vl;
        assert forall|k: int| vs <= k < ve implies s[k] != '"' by {
            assert(s[k] == tail[k - p]);
            assert(tail[k - p] == val[k - p - (3 + kl)]);
            assert(valid_value(args[0].1));
        }
        assert(s[ve] == '"');
        lemma_quote_end_is(s, vs, ve);
        // the rest of the pairs
        assert(valid_args(rest)) by {
            assert forall|a: int| 0 <= a < rest.len() implies valid_name(
                (#[trigger] rest[a]).0,
            ) && valid_value(rest[a].1) by {
                assert(rest[a] == args[a + 1]);
            }
        }
        let front_len = 4 + kl + vl;
        assert(s.subrange(ve + 1, s.len() as int) =~= render_args(rest) + ">>"@) by {
            assert forall|t: int| 0 <= t < s.len() - (ve + 1) implies s.subrange(
                ve + 1,
                s.len() as int,
            )[t] == (render_args(rest) + ">>"@)[t] by {
                assert(s.subrange(ve + 1, s.len() as int)[t] == s[ve + 1 + t]);
                assert(s[ve + 1 + t] == tail[front_len + t]);
                assert(tail[front_len + t] == (render_args(rest) + ">>"@)[t]);
            }
        }
        lemma_parse_pairs_of_render(s, ve + 1, rest);
        assert(s.subrange(p + 1, ke) =~= key);
        assert(s.subrange(vs, ve) =~= val);
        assert(seq![(key, val)] + rest =~= args);
    }
}

/// Round-trip law: rendering a call for a tool the catalog advertises, with
/// valid unique keys among the tool's parameters and renderable values, and
/// parsing the rendered text yields exactly one invocation carrying that
/// name and those arguments, and no residual text.
pub proof fn lemma_render_parse_round_trip(
    name: Seq<char>,
    args: Seq<(Seq<char>, Seq<char>)>,
    tools: Seq<ToolView>,
    ti: int,
    r: Result<ChatTurn, ExtractionError>,
)
    requires
        valid_name(name),
        valid_args(args),
        keys_unique(args),
        0 <= ti < tools.len(),
        first_tool(tools, name, 0) == Some(ti),
        args_listed(tools[ti].parameters, args),
        parse_post(render_call(name, args), tools, r),
    ensures
        r is Ok,
        r->Ok_0.text@.len() == 0,
        r->Ok_0.invocations@.len() == 1,
        r->Ok_0.invocations@[0].action@ == name,
        args_view(r->Ok_0.invocations@[0].arguments@) == args,
{
    reveal_strlit("<<");
    reveal_strlit(">>");
    reveal_strlit(" ");
    let s = render_call(name, args);
    let nl = name.len() as int;
    assert(s == "<<"@ + name + render_args(args) + ">>"@);
    assert(s[0] == '<' && s[1] == '<');
    assert(marker_at(s, 0));
    assert(has_marker(s));
    assert(first_marker(s, 0) == Some(0int));
    // the name run ends where the arguments or the closing marker begin
    assert forall|k: int| 2 <= k < 2 + nl implies name_char(s[k]) by {
        assert(s[k] == name[k - 2]);
    }
    let ne = 2 + nl;
    if args.len() == 0 {
        assert(render_args(args).len() == 0);
        assert(s[ne] == '>');
        assert(!name_char(s[ne]));
    } else {
        assert(render_args(args) == " "@ + args[0].0 + "=\""@ + args[0].1 + "\""@ + render_args(
            args.drop_first(),
        ));
        assert(render_args(args)[0] == ' ');
        assert(s[ne] == ' ');
        assert(!name_char(s[ne]));
    }
    lemma_name_end_is(s, 2, ne);
    assert(s.subrange(2, ne) =~= name);
    // the argument pairs
    assert(s.subrange(ne, s.len() as int) =~= render_args(args) + ">>"@);
    lemma_parse_pairs_of_render(s, ne, args);
    assert(marker_parse(s) == Some(
        (s.subrange(2, ne), args, s.subrange(0, 0) + s.subrange(
            s.len() as int,
            s.len() as int,
        )),
    ));
    assert((s.subrange(0, 0) + s.subrange(s.len() as int, s.len() as int)).len() == 0);
}

// ---------------------------------------------------------------------------
// The strategy interface
// ---------------------------------------------------------------------------

/// One model family's tool-call syntax: how outgoing prompts and returned
/// text are rewritten, how the catalog is taught, and how raw text is parsed
/// back into invocations.  Each strategy pins its own call-marker predicate
/// and rewriting functions, so the dispatch logic around it stays untouched
/// when a family with another syntax is added.
pub trait RequestParserBase {
    /// Whether `s` holds this strategy's call marker.
    spec fn marker_in(&self, s: Seq<char>) -> bool;

    /// What this strategy's query rewriting denotes.
    spec fn formatted_query(&self, s: Seq<char>) -> Seq<char>;

    /// What this strategy's response rewriting denotes.
    spec fn formatted_response(&self, s: Seq<char>) -> Seq<char>;

    /// What this strategy's system message for a catalog denotes.
    spec fn system_message_of(&self, tools: Seq<ToolView>) -> Seq<char>;

    /// Rewrites the outgoing prompt to the family's instruction style.
    fn format_query(&self, input: &str) -> (r: String)
        ensures
            r@ == self.formatted_query(input@),
    ;

    /// Rewrites raw model text before it is returned to the caller.
    fn format_response(&self, response: &str) -> (r: String)
        ensures
            r@ == self.formatted_response(response@),
    ;

    /// Renders the catalog into this family's system message.
    fn get_system_message(&self, tools: &Vec<ToolDescriptor>) -> (r: String)
        ensures
            r@ == self.system_message_of(tools_view(tools@)),
    ;

    /// Parses raw model text; text without this strategy's marker is a valid
    /// plain reply and comes back rewritten, with no invocations.
    fn parse(&self, input: &str, model_name: String, tools: &Vec<ToolDescriptor>) -> (r: Result<
        ChatTurn,
        ExtractionError,
    >)
        ensures
            !self.marker_in(input@) ==> r is Ok && r->Ok_0.invocations@.len() == 0
                && r->Ok_0.text@ == self.formatted_response(input@),
    ;

    /// Maps a lower-level provider error into the extraction error shape.
    fn error_handler(&self, error: String) -> (r: ExtractionError)
        ensures
            r.kind == ExtractionKind::Provider,
            r.detail == error,
    ;
}

/// The strategy for models that emit `<<name key="value">>` markers in
/// plain text: queries and responses pass through unchanged.
pub struct TagCallParser;

impl RequestParserBase for TagCallParser {
    open spec fn marker_in(&self, s: Seq<char>) -> bool {
        has_marker(s)
    }

    open spec fn formatted_query(&self, s: Seq<char>) -> Seq<char> {
        s
    }

    open spec fn formatted_response(&self, s: Seq<char>) -> Seq<char> {
        s
    }

    open spec fn system_message_of(&self, tools: Seq<ToolView>) -> Seq<char> {
        sys_message(tools)
    }

    fn format_query(&self, input: &str) -> (r: String) {
        input.to_owned()
    }

    fn format_response(&self, response: &str) -> (r: String) {
        response.to_owned()
    }

    fn get_system_message(&self, tools: &Vec<ToolDescriptor>) -> (r: String) {
        sys_message_text(tools)
    }

    fn parse(&self, input: &str, model_name: String, tools: &Vec<ToolDescriptor>) -> (r: Result<
        ChatTurn,
        ExtractionError,
    >) {
        extract_call(input, tools)
    }

    fn error_handler(&self, error: String) -> (r: ExtractionError) {
        ExtractionError { kind: ExtractionKind::Provider, detail: error }
    }
}

} // verus!
