//! A registry of named, typed tools and the dispatch pipeline that turns an
//! untyped JSON call request into a validated, ordered, typed invocation.
//!
//! A caller that speaks only JSON, typically a language model, picks a tool
//! from the catalog ([`ToolHandler::all_tools_schema`]) and sends a call
//! request. [`ToolHandler::call_tool`] reads the request, looks the tool up,
//! validates the arguments against the tool's registered schema, puts them
//! in the order of the schema's properties, binds them to the tool's typed
//! parameters and runs the implementation. Every failure on the way is one
//! of the three kinds of [`ToolError`].
//!
//! The modules, leaves first:
//!
//! - [`text`], [`number`]: strings, decimal integers, number grammars;
//! - [`json`], [`render`], [`order`]: JSON values as plain data, their
//!   canonical text, and the members of an object in the order of their
//!   keys;
//! - [`error`]: the three kinds of failure;
//! - [`schema`]: the schema validator, an outside crate behind three
//!   trusted functions, and the test that keeps schemas with references
//!   away from it;
//! - [`request`], [`marshal`]: the shape of a call request, and the ordering
//!   of its arguments;
//! - [`executor`]: the count check and the typed binding of positional
//!   arguments;
//! - [`tool`], [`handler`]: descriptors, the registry and the facade;
//! - [`pipeline`]: how marshaling and binding fit together;
//! - [`chat`]: the decisions of a conversation in which a model asks for
//!   tool calls.
pub mod chat;
pub mod error;
pub mod executor;
pub mod handler;
pub mod json;
pub mod marshal;
pub mod number;
pub mod order;
pub mod pipeline;
pub mod render;
pub mod request;
pub mod schema;
pub mod text;
pub mod tool;

pub use chat::{
    create_mock_tool_call, process_mock_tool_call, ChatMessage, ToolCall, ToolFunction, ToolResult,
};
pub use error::ToolError;
pub use executor::{Arg, Param, ParamKind};
pub use handler::ToolHandler;
pub use json::{Json, Number};
pub use tool::Tool;
