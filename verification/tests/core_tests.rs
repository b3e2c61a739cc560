use nerve_core::conversation::{ChatOptions, Invocation, Message};
use nerve_core::task::Task;
use nerve_core::factory::{factory, factory_embedder, FactoryError};
use nerve_core::task::guidance_lines;

#[test]
fn chat_options_keeps_its_fields() {
    let history = vec![Message::Agent("hi".to_string(), None)];
    let options = ChatOptions::new("be kind".to_string(), "hello".to_string(), history);
    assert_eq!(options.system_prompt, "be kind");
    assert_eq!(options.prompt, "hello");
    assert_eq!(options.history.len(), 1);
}

#[test]
fn message_display_forms() {
    let agent = Message::Agent("I looked it up".to_string(), None);
    assert_eq!(agent.to_display_string(), "[agent]\n\nI looked it up\n");
    let feedback = Message::Feedback("done".to_string(), None);
    assert_eq!(feedback.to_display_string(), "[feedback]\n\ndone\n");
}

#[test]
fn invocation_new_starts_without_result() {
    let inv = Invocation::new(
        "search".to_string(),
        vec![("query".to_string(), "x".to_string())],
        Some("payload".to_string()),
    );
    assert_eq!(inv.action, "search");
    assert_eq!(inv.arguments.len(), 1);
    assert_eq!(inv.payload.as_deref(), Some("payload"));
    assert!(inv.result.is_none());
}

#[test]
fn factory_unknown_backend_fails_closed() {
    let r = factory("unknown-backend", "http://localhost", 11434, "llama3", 8192);
    assert_eq!(r.unwrap_err(), FactoryError::UnsupportedBackend);
}

#[test]
fn factory_known_backend_yields_config() {
    let cfg = factory("ollama", "http://localhost", 11434, "llama3", 8192).expect("known backend");
    assert_eq!(cfg.backend, "ollama");
    assert_eq!(cfg.url, "http://localhost");
    assert_eq!(cfg.port, 11434);
    assert_eq!(cfg.model_name, "llama3");
    assert_eq!(cfg.context_window, 8192);
}

#[test]
fn factory_validates_parameters_eagerly() {
    assert_eq!(
        factory("openai", "", 443, "gpt", 8192).unwrap_err(),
        FactoryError::EmptyEndpoint
    );
    assert_eq!(
        factory("openai", "https://api", 443, "", 8192).unwrap_err(),
        FactoryError::EmptyModelName
    );
    assert_eq!(
        factory("openai", "https://api", 443, "gpt", 0).unwrap_err(),
        FactoryError::ZeroContextWindow
    );
}

#[test]
fn factory_every_registered_backend() {
    for name in ["ollama", "openai", "fireworks", "hf", "groq"] {
        assert!(factory(name, "http://h", 1, "m", 1).is_ok());
    }
}

#[test]
fn embedder_registry_mirrors_chat_registry() {
    assert!(factory_embedder("ollama", "http://h", 1, "m", 1).is_ok());
    assert_eq!(
        factory_embedder("unknown-backend", "http://h", 1, "m", 1).unwrap_err(),
        FactoryError::UnsupportedBackend
    );
}

#[test]
fn guidance_lines_trims_and_drops_empty() {
    let lines = guidance_lines("  first rule \n\n\tsecond rule\n   \nthird\n");
    assert_eq!(lines, vec!["first rule", "second rule", "third"]);
}

#[test]
fn guidance_lines_of_empty_text() {
    let lines = guidance_lines("");
    assert!(lines.is_empty());
    let lines = guidance_lines(" \n \n");
    assert!(lines.is_empty());
}

#[test]
fn guidance_lines_single_line_no_newline() {
    assert_eq!(guidance_lines("only rule"), vec!["only rule"]);
}

struct GreeterTask;

impl Task for GreeterTask {
    fn to_system_prompt(&self) -> Result<String, String> {
        Ok("You are helpful".to_string())
    }

    fn to_prompt(&self) -> Result<String, String> {
        Ok("say hello".to_string())
    }

    fn get_functions(&self) -> Vec<nerve_core::protocol::Namespace> {
        Vec::new()
    }
}

#[test]
fn task_defaults() {
    let t = GreeterTask;
    assert_eq!(t.max_history_visibility(), 50);
    assert!(t.namespaces().is_none());
    let base = t.base_guidance().expect("base guidance");
    assert_eq!(
        base,
        vec![
            "Keep your responses short and to the point.",
            "Use only the tools you were given.",
            "When the goal is reached, say so.",
        ]
    );
    assert_eq!(t.guidance().expect("guidance"), base);
}
