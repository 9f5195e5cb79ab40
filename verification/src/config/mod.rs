//! Models, providers, and how the answers of a model are read.
pub mod calls;
pub mod client;
pub mod literals;
pub mod markup;
pub mod routing;
pub mod schema;

pub use calls::{ChatResponse, TokenUsage, ToolCall, ToolSpec};
pub use client::{
    ChatError, DispatchStep, ProjectTokenUsage, ProviderHttpStatusError, SchemaChat, SchemaStep,
    StructuredCall, ZeroClawBackend, ZeroClawClient,
};
pub use routing::{
    DockerSandboxConfig, EnvReading, ModelRouteConfig, ModelRouter, ProviderKeys, TaskKind,
    TaskModelConfig,
};
