//! The three kinds of failure a tool operation can report.
use vstd::prelude::*;

verus! {

/// Errors returned by tool operations.
#[derive(Debug, PartialEq, Eq)]
pub enum ToolError {
    /// No tool is registered under the requested name.
    NotFound(String),
    /// The caller's data does not fit the tool's contract.
    BadArgs(String),
    /// The tool itself, or its registered descriptor, failed.
    Execution(String),
}

/// The mathematical value of a [`ToolError`]: its kind and its text.
pub enum Failure {
    NotFound(Seq<char>),
    BadArgs(Seq<char>),
    Execution(Seq<char>),
}

impl View for ToolError {
    type V = Failure;

    open spec fn view(&self) -> Failure {
        match self {
            ToolError::NotFound(name) => Failure::NotFound(name@),
            ToolError::BadArgs(message) => Failure::BadArgs(message@),
            ToolError::Execution(message) => Failure::Execution(message@),
        }
    }
}

impl Clone for ToolError {
    fn clone(&self) -> (r: ToolError)
        ensures
            r@ == self@,
    {
        match self {
            ToolError::NotFound(name) => ToolError::NotFound(name.clone()),
            ToolError::BadArgs(message) => ToolError::BadArgs(message.clone()),
            ToolError::Execution(message) => ToolError::Execution(message.clone()),
        }
    }
}

impl Failure {
    /// The text carried by the failure: the tool's name or the message.
    pub open spec fn detail(self) -> Seq<char> {
        match self {
            Failure::NotFound(name) => name,
            Failure::BadArgs(message) => message,
            Failure::Execution(message) => message,
        }
    }

    /// The one-line description of the failure.
    pub open spec fn description(self) -> Seq<char> {
        match self {
            Failure::NotFound(name) => "tool not found: "@ + name,
            Failure::BadArgs(message) => "invalid arguments: "@ + message,
            Failure::Execution(message) => "execution failed: "@ + message,
        }
    }
}

/// The mathematical value of an operation's outcome.
pub open spec fn outcome(r: Result<String, ToolError>) -> Result<Seq<char>, Failure> {
    match r {
        Ok(text) => Ok(text@),
        Err(e) => Err(e@),
    }
}

/// The message for a required parameter that no argument is there for.
pub open spec fn missing_message(name: Seq<char>) -> Seq<char> {
    "Missing argument for parameter '"@ + name + "'"@
}

impl ToolError {
    /// The failure for the required parameter `name` that no argument is
    /// there for.
    pub fn missing_argument(name: &str) -> (r: ToolError)
        ensures
            r@ == Failure::BadArgs(missing_message(name@)),
    {
        let mut message = String::from_str("Missing argument for parameter '");
        message.append(name);
        message.append("'");
        ToolError::BadArgs(message)
    }

    /// The text carried by the error: the tool's name or the message.
    pub fn detail(&self) -> (r: &str)
        ensures
            r@ == self@.detail(),
    {
        match self {
            ToolError::NotFound(name) => name.as_str(),
            ToolError::BadArgs(message) => message.as_str(),
            ToolError::Execution(message) => message.as_str(),
        }
    }

    /// The one-line description of the error, kind first.
    pub fn describe(&self) -> (r: String)
        ensures
            r@ == self@.description(),
    {
        let mut out = match self {
            ToolError::NotFound(_) => String::from_str("tool not found: "),
            ToolError::BadArgs(_) => String::from_str("invalid arguments: "),
            ToolError::Execution(_) => String::from_str("execution failed: "),
        };
        out.append(self.detail());
        out
    }
}

} // verus!
