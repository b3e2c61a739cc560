use nerve_core::conversation::ChatOptions;
use nerve_core::protocol::{
    extract_call, render_call_text, sys_message_text, ExtractionKind, RequestParserBase,
    TagCallParser, ToolDescriptor,
};

fn tool(name: &str, description: &str, parameters: &[&str]) -> ToolDescriptor {
    ToolDescriptor {
        name: name.to_string(),
        description: description.to_string(),
        parameters: parameters.iter().map(|p| p.to_string()).collect(),
    }
}

fn catalog() -> Vec<ToolDescriptor> {
    vec![
        tool("search", "look something up", &["query", "limit"]),
        tool("wait", "pause for a while", &["seconds"]),
    ]
}

#[test]
fn plain_text_passes_through() {
    let tools = catalog();
    let turn = extract_call("just thinking out loud", &tools).expect("plain text is valid");
    assert_eq!(turn.text, "just thinking out loud");
    assert!(turn.invocations.is_empty());
}

#[test]
fn plain_text_parse_is_idempotent() {
    let tools = catalog();
    let once = extract_call("no marker here", &tools).expect("plain text is valid");
    let twice = extract_call(&once.text, &tools).expect("still plain text");
    assert_eq!(once.text, twice.text);
    assert!(twice.invocations.is_empty());
}

#[test]
fn well_formed_call_is_extracted() {
    let tools = catalog();
    let raw = "I will search.\n<<search query=\"rust verifier\" limit=\"3\">>\ndone";
    let turn = extract_call(raw, &tools).expect("well-formed call");
    assert_eq!(turn.invocations.len(), 1);
    let inv = &turn.invocations[0];
    assert_eq!(inv.action, "search");
    assert_eq!(
        inv.arguments,
        vec![
            ("query".to_string(), "rust verifier".to_string()),
            ("limit".to_string(), "3".to_string()),
        ]
    );
    assert!(inv.payload.is_none());
    assert!(inv.result.is_none());
    // the marker is cut out; the surrounding text stays
    assert_eq!(turn.text, "I will search.\n\ndone");
}

#[test]
fn call_without_arguments() {
    let tools = catalog();
    let turn = extract_call("<<wait>>", &tools).expect("no-argument call");
    assert_eq!(turn.invocations.len(), 1);
    assert_eq!(turn.invocations[0].action, "wait");
    assert!(turn.invocations[0].arguments.is_empty());
    assert_eq!(turn.text, "");
}

#[test]
fn unknown_tool_is_an_error() {
    let tools = catalog();
    let err = extract_call("<<teleport where=\"home\">>", &tools).expect_err("unknown tool");
    assert_eq!(err.kind, ExtractionKind::UnknownTool);
    assert_eq!(err.detail, "teleport");
}

#[test]
fn malformed_marker_is_an_error() {
    let tools = catalog();
    let err = extract_call("<<search query=oops>>", &tools).expect_err("unquoted value");
    assert_eq!(err.kind, ExtractionKind::MalformedCall);
    let err = extract_call("<< search>>", &tools).expect_err("no name");
    assert_eq!(err.kind, ExtractionKind::MalformedCall);
    let err = extract_call("text << more text", &tools).expect_err("never closed");
    assert_eq!(err.kind, ExtractionKind::MalformedCall);
}

#[test]
fn duplicate_argument_is_an_error() {
    let tools = catalog();
    let err = extract_call("<<search query=\"a\" query=\"b\">>", &tools)
        .expect_err("duplicate key");
    assert_eq!(err.kind, ExtractionKind::DuplicateArgument);
}

#[test]
fn unknown_argument_is_an_error() {
    let tools = catalog();
    let err = extract_call("<<search colour=\"red\">>", &tools).expect_err("unknown key");
    assert_eq!(err.kind, ExtractionKind::UnknownArgument);
}

#[test]
fn round_trip_for_each_advertised_tool() {
    let tools = catalog();
    let parser = TagCallParser;
    let message = parser.get_system_message(&tools);
    for t in &tools {
        // the system message advertises the tool
        assert!(message.contains(t.name.as_str()));
        // a synthetic well-formed response for it parses back exactly
        let args: Vec<(String, String)> = t
            .parameters
            .iter()
            .map(|p| (p.clone(), format!("value of {}", p)))
            .collect();
        let synthetic = render_call_text(t.name.as_str(), &args);
        let turn = extract_call(&synthetic, &tools).expect("synthetic call parses");
        assert_eq!(turn.invocations.len(), 1);
        assert_eq!(turn.invocations[0].action, t.name);
        assert_eq!(turn.invocations[0].arguments, args);
        assert_eq!(turn.text, "");
    }
}

#[test]
fn system_message_exact_rendering() {
    let tools = vec![tool("wait", "pause for a while", &["seconds"])];
    let message = sys_message_text(&tools);
    assert_eq!(
        message,
        "To call a tool, reply with a marker of the form <<name key=\"value\">>.\n\
         Available tools:\n\
         - wait: pause for a while\n  usage: <<wait seconds=\"seconds\">>"
    );
}

#[test]
fn render_call_exact() {
    let args = vec![("query".to_string(), "a b".to_string())];
    assert_eq!(render_call_text("search", &args), "<<search query=\"a b\">>");
    let none: Vec<(String, String)> = Vec::new();
    assert_eq!(render_call_text("wait", &none), "<<wait>>");
}

#[test]
fn parser_strategy_formats_identically() {
    let parser = TagCallParser;
    assert_eq!(parser.format_query("hello"), "hello");
    assert_eq!(parser.format_response("world"), "world");
}

#[test]
fn error_handler_wraps_provider_error() {
    let parser = TagCallParser;
    let e = parser.error_handler("boom".to_string());
    assert_eq!(e.kind, ExtractionKind::Provider);
    assert_eq!(e.detail, "boom");
}

// A text-only backend answering a plain question: the reply carries no
// invocation and passes through extraction unchanged.
struct TextOnlyBackend;

impl TextOnlyBackend {
    fn chat(&self, options: &ChatOptions) -> (String, Vec<String>) {
        if options.prompt == "2+2?" {
            ("4".to_string(), Vec::new())
        } else {
            ("?".to_string(), Vec::new())
        }
    }
}

#[test]
fn text_only_backend_exchange() {
    let options = ChatOptions::new(
        "You are helpful".to_string(),
        "2+2?".to_string(),
        Vec::new(),
    );
    let backend = TextOnlyBackend;
    let (reply, native_invocations) = backend.chat(&options);
    assert!(native_invocations.is_empty());
    let turn = extract_call(&reply, &catalog()).expect("plain reply");
    assert_eq!(turn.text, "4");
    assert!(turn.invocations.is_empty());
}
