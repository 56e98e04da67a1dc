//! Silences: the verified core of an agentic coding assistant.
pub mod message;
pub mod llm;
pub mod text;
pub mod checkpoint_stack;
pub mod queue;
pub mod history;
pub mod session;
pub mod edit;
pub mod events;
pub mod context;
pub mod agent;
pub mod tokens;
pub mod settings;
pub mod sse;
pub mod splice;
pub mod regex_edit;
pub mod surgery;
pub mod similarity;
pub mod feedback;
pub mod grep;
pub mod walk;
pub mod task_tools;
pub mod decode;
pub mod listing;
pub mod console;
pub mod run;
