//! The client factory: a static registry that maps a backend name to a
//! validated client configuration, failing closed on unknown names, and a
//! parallel registry exposing the same backends as embedding-only providers.
//! Connection parameters are validated eagerly here, so misconfiguration
//! surfaces before any network traffic; the network client itself is built
//! outside the core from the returned configuration.

use vstd::prelude::*;
use crate::protocol::str_eq;

verus! {

/// Why a client could not be configured: an unknown backend name, or a
/// connection parameter rejected by eager validation.
#[derive(Clone, Copy, Debug, PartialEq, Eq, Structural)]
pub enum FactoryError {
    /// No backend of that name is registered.
    UnsupportedBackend,
    /// The endpoint must not be empty.
    EmptyEndpoint,
    /// The model name must not be empty.
    EmptyModelName,
    /// The context window must hold at least one token.
    ZeroContextWindow,
}

/// A validated client configuration: which backend to build and the
/// connection parameters to build it with.
#[derive(Clone, Debug)]
pub struct ClientConfig {
    pub backend: String,
    pub url: String,
    pub port: u16,
    pub model_name: String,
    pub context_window: u32,
}

/// The names the registry knows.
pub open spec fn supported_backend(name: Seq<char>) -> bool {
    ||| name == "ollama"@
    ||| name == "openai"@
    ||| name == "fireworks"@
    ||| name == "hf"@
    ||| name == "groq"@
}

/// The connection parameters eager validation accepts.
pub open spec fn params_ok(url: Seq<char>, model_name: Seq<char>, context_window: u32) -> bool {
    url.len() > 0 && model_name.len() > 0 && context_window > 0
}

fn backend_known(name: &str) -> (b: bool)
    ensures
        b == supported_backend(name@),
{
    str_eq(name, "ollama") || str_eq(name, "openai") || str_eq(name, "fireworks") || str_eq(
        name,
        "hf",
    ) || str_eq(name, "groq")
}

/// Selects a backend by name and validates the connection parameters: a
/// known name with acceptable parameters yields its configuration; an
/// unknown name fails closed, and each rejected parameter yields its own
/// error.
pub fn factory(name: &str, url: &str, port: u16, model_name: &str, context_window: u32) -> (r:
    Result<ClientConfig, FactoryError>)
    ensures
        r is Ok <==> supported_backend(name@) && params_ok(url@, model_name@, context_window),
        r is Ok ==> {
            &&& r->Ok_0.backend@ == name@
            &&& r->Ok_0.url@ == url@
            &&& r->Ok_0.port == port
            &&& r->Ok_0.model_name@ == model_name@
            &&& r->Ok_0.context_window == context_window
        },
        !supported_backend(name@) ==> r == Err::<ClientConfig, FactoryError>(
            FactoryError::UnsupportedBackend,
        ),
        supported_backend(name@) && url@.len() == 0 ==> r == Err::<ClientConfig, FactoryError>(
            FactoryError::EmptyEndpoint,
        ),
        supported_backend(name@) && url@.len() > 0 && model_name@.len() == 0 ==> r == Err::<
            ClientConfig,
            FactoryError,
        >(FactoryError::EmptyModelName),
        supported_backend(name@) && url@.len() > 0 && model_name@.len() > 0 && context_window == 0
            ==> r == Err::<ClientConfig, FactoryError>(FactoryError::ZeroContextWindow),
{
    if !backend_known(name) {
        return Err(FactoryError::UnsupportedBackend);
    }
    if url.unicode_len() == 0 {
        return Err(FactoryError::EmptyEndpoint);
    }
    if model_name.unicode_len() == 0 {
        return Err(FactoryError::EmptyModelName);
    }
    if context_window == 0 {
        return Err(FactoryError::ZeroContextWindow);
    }
    Ok(
        ClientConfig {
            backend: name.to_owned(),
            url: url.to_owned(),
            port,
            model_name: model_name.to_owned(),
            context_window,
        },
    )
}

/// The parallel embedding-only registry: the same backends, selected and
/// validated the same way, for callers that only need vector embeddings.
pub fn factory_embedder(
    name: &str,
    url: &str,
    port: u16,
    model_name: &str,
    context_window: u32,
) -> (r: Result<ClientConfig, FactoryError>)
    ensures
        r is Ok <==> supported_backend(name@) && params_ok(url@, model_name@, context_window),
        r is Ok ==> {
            &&& r->Ok_0.backend@ == name@
            &&& r->Ok_0.url@ == url@
            &&& r->Ok_0.port == port
            &&& r->Ok_0.model_name@ == model_name@
            &&& r->Ok_0.context_window == context_window
        },
        !supported_backend(name@) ==> r == Err::<ClientConfig, FactoryError>(
            FactoryError::UnsupportedBackend,
        ),
{
    factory(name, url, port, model_name, context_window)
}

} // verus!
