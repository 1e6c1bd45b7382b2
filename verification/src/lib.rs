//! Building blocks of a Model Context Protocol server: a registry of tools and
//! shared state, the errors a server answers with, the conversion of tool
//! return values into tool results, and the plan that turns an annotated tool
//! function into its generated glue.

pub mod error;
pub mod result;
pub mod server;
pub mod state;
pub mod text;
pub mod toolgen;

pub use error::McpError;
pub use result::{IntoToolResult, ToolResult};
pub use server::LazyMcp;
pub use state::State;
