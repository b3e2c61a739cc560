//! Data types for a single chat exchange: the per-turn options handed to a
//! backend client, the history entries, and the resolved tool invocations
//! extracted from model output.

use vstd::prelude::*;

verus! {

/// A single resolved tool call: the tool's name, its arguments (an ordered
/// mapping with unique keys), an optional free-form payload, and the result
/// recorded by an external executor once the call has run.
#[derive(Clone, Debug)]
pub struct Invocation {
    pub action: String,
    pub arguments: Vec<(String, String)>,
    pub payload: Option<String>,
    pub result: Option<String>,
}

/// No two entries of an argument list carry the same key.
pub open spec fn keys_unique(args: Seq<(Seq<char>, Seq<char>)>) -> bool {
    forall|i: int, j: int| 0 <= i < j < args.len() ==> args[i].0 != args[j].0
}

/// The mathematical view of an executable argument list.
pub open spec fn args_view(args: Seq<(String, String)>) -> Seq<(Seq<char>, Seq<char>)> {
    args.map_values(|p: (String, String)| (p.0@, p.1@))
}

impl Invocation {
    /// The argument mapping never holds two entries with the same key.
    pub open spec fn wf(&self) -> bool {
        keys_unique(args_view(self.arguments@))
    }

    pub fn new(action: String, arguments: Vec<(String, String)>, payload: Option<String>) -> (r:
        Invocation)
        requires
            keys_unique(args_view(arguments@)),
        ensures
            r.action == action,
            r.arguments == arguments,
            r.payload == payload,
            r.result is None,
            r.wf(),
    {
        Invocation { action, arguments, payload, result: None }
    }
}

/// One history entry: either something the model produced (`Agent`) or the
/// environment's response to an executed invocation (`Feedback`); each
/// carries its text and at most one resolved invocation.
#[derive(Clone, Debug)]
pub enum Message {
    Agent(String, Option<Invocation>),
    Feedback(String, Option<Invocation>),
}

impl Message {
    /// The text carried by this entry.
    pub open spec fn text_view(&self) -> Seq<char> {
        match self {
            Message::Agent(data, _) => data@,
            Message::Feedback(data, _) => data@,
        }
    }

    /// How this entry renders when a transcript is printed.
    pub open spec fn display_view(&self) -> Seq<char> {
        match self {
            Message::Agent(data, _) => "[agent]\n\n"@ + data@ + "\n"@,
            Message::Feedback(data, _) => "[feedback]\n\n"@ + data@ + "\n"@,
        }
    }

    /// Renders the entry with its `[agent]` / `[feedback]` heading.
    pub fn to_display_string(&self) -> (r: String)
        ensures
            r@ == self.display_view(),
    {
        match self {
            Message::Agent(data, _) => {
                let mut s = String::from_str("[agent]\n\n");
                s.append(data.as_str());
                s.append("\n");
                s
            },
            Message::Feedback(data, _) => {
                let mut s = String::from_str("[feedback]\n\n");
                s.append(data.as_str());
                s.append("\n");
                s
            },
        }
    }
}

/// Immutable per-turn input to a chat call: persona instructions, the
/// current prompt, and the conversation so far, oldest entry first.
#[derive(Clone, Debug)]
pub struct ChatOptions {
    pub system_prompt: String,
    pub prompt: String,
    pub history: Vec<Message>,
}

impl ChatOptions {
    pub fn new(system_prompt: String, prompt: String, history: Vec<Message>) -> (r: ChatOptions)
        ensures
            r.system_prompt == system_prompt,
            r.prompt == prompt,
            r.history == history,
    {
        ChatOptions { system_prompt, prompt, history }
    }
}

} // verus!
