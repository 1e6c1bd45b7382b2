use vstd::prelude::*;

verus! {

/// The errors a server answers a tool call with.
#[derive(Debug, Clone, PartialEq, Eq)]
pub enum McpError {
    /// The arguments of a call could not be read as the tool's parameters.
    InvalidArguments(String),
    /// The tool ran and failed.
    ExecutionError(String),
    /// The server itself could not serve the call.
    InternalError(String),
    /// No tool has the requested name.
    MethodNotFound(String),
}

/// JSON-RPC code for invalid method parameters.
pub open spec fn invalid_params_code_spec() -> int {
    -32602
}

/// JSON-RPC code for an internal error.
pub open spec fn internal_error_code_spec() -> int {
    -32603
}

/// JSON-RPC code for an unknown method.
pub open spec fn method_not_found_code_spec() -> int {
    -32601
}

/// `rmcp::model::ErrorCode::INVALID_PARAMS`, which rmcp defines as `-32602`.
#[verifier::external_body]
fn invalid_params_code() -> (c: i32)
    ensures
        c == invalid_params_code_spec(),
{
    rmcp::model::ErrorCode::INVALID_PARAMS.0
}

/// `rmcp::model::ErrorCode::INTERNAL_ERROR`, which rmcp defines as `-32603`.
#[verifier::external_body]
fn internal_error_code() -> (c: i32)
    ensures
        c == internal_error_code_spec(),
{
    rmcp::model::ErrorCode::INTERNAL_ERROR.0
}

/// `rmcp::model::ErrorCode::METHOD_NOT_FOUND`, which rmcp defines as `-32601`.
#[verifier::external_body]
fn method_not_found_code() -> (c: i32)
    ensures
        c == method_not_found_code_spec(),
{
    rmcp::model::ErrorCode::METHOD_NOT_FOUND.0
}

impl McpError {
    /// The JSON-RPC error code that the error is answered with.
    pub open spec fn code_spec(&self) -> int {
        match self {
            McpError::InvalidArguments(_) => invalid_params_code_spec(),
            McpError::ExecutionError(_) => internal_error_code_spec(),
            McpError::InternalError(_) => internal_error_code_spec(),
            McpError::MethodNotFound(_) => method_not_found_code_spec(),
        }
    }

    /// The message that the error carries.
    pub open spec fn message_spec(&self) -> Seq<char> {
        match self {
            McpError::InvalidArguments(m) => m@,
            McpError::ExecutionError(m) => m@,
            McpError::InternalError(m) => m@,
            McpError::MethodNotFound(m) => m@,
        }
    }

    /// The JSON-RPC error code of this error: invalid parameters for invalid
    /// arguments, internal error for execution and internal errors, method
    /// not found for an unknown tool.
    pub fn error_code(&self) -> (c: i32)
        ensures
            c == self.code_spec(),
    {
        match self {
            McpError::InvalidArguments(_) => invalid_params_code(),
            McpError::ExecutionError(_) => internal_error_code(),
            McpError::InternalError(_) => internal_error_code(),
            McpError::MethodNotFound(_) => method_not_found_code(),
        }
    }

    /// The message of this error, as it goes into the error answer.
    pub fn message(&self) -> (m: &String)
        ensures
            m@ == self.message_spec(),
    {
        match self {
            McpError::InvalidArguments(m) => m,
            McpError::ExecutionError(m) => m,
            McpError::InternalError(m) => m,
            McpError::MethodNotFound(m) => m,
        }
    }

    /// The error answered when no tool has the name `name`:
    /// `MethodNotFound("Tool '<name>' not found")`.
    pub fn tool_not_found(name: &str) -> (e: McpError)
        ensures
            e is MethodNotFound,
            e.message_spec() == tool_not_found_message(name@),
    {
        let mut m = String::from_str("Tool '");
        m.append(name);
        m.append("' not found");
        McpError::MethodNotFound(m)
    }

    /// The error answered when a tool asks for state of a type that was
    /// never registered: ``InternalError("State of type `<type>` is not registered")``.
    pub fn state_not_registered(ty_text: &str) -> (e: McpError)
        ensures
            e is InternalError,
            e.message_spec() == state_not_registered_message(ty_text@),
    {
        let mut m = String::from_str("State of type `");
        m.append(ty_text);
        m.append("` is not registered");
        McpError::InternalError(m)
    }
}

/// The message of the error answered for an unknown tool name.
pub open spec fn tool_not_found_message(name: Seq<char>) -> Seq<char> {
    "Tool '"@ + name + "' not found"@
}

/// The message of the error answered for state that was never registered.
pub open spec fn state_not_registered_message(ty_text: Seq<char>) -> Seq<char> {
    "State of type `"@ + ty_text + "` is not registered"@
}

/// A call of a name that no tool has is answered with the method-not-found
/// code and the message that names the tool.
pub proof fn law_unknown_tool_answer(name: Seq<char>, e: McpError)
    requires
        e is MethodNotFound,
        e.message_spec() == tool_not_found_message(name),
    ensures
        e.code_spec() == -32601,
        e.message_spec() == "Tool '"@ + name + "' not found"@,
{
}

/// The answer to each error: invalid arguments with -32602, an execution or
/// internal error with -32603, an unknown method with -32601, each carrying
/// its message unchanged; a missing state is reported by name.
pub proof fn law_error_answers(m: String, ty_text: Seq<char>)
    ensures
        McpError::InvalidArguments(m).code_spec() == -32602,
        McpError::ExecutionError(m).code_spec() == -32603,
        McpError::InternalError(m).code_spec() == -32603,
        McpError::MethodNotFound(m).code_spec() == -32601,
        McpError::InvalidArguments(m).message_spec() == m@,
        McpError::ExecutionError(m).message_spec() == m@,
        McpError::InternalError(m).message_spec() == m@,
        McpError::MethodNotFound(m).message_spec() == m@,
        state_not_registered_message(ty_text) == "State of type `"@ + ty_text + "` is not registered"@,
{
}

} // verus!
