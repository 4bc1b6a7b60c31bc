//! The handler of the todo-list tool: it accepts function-call payloads only
//! and records the list that the model sends.
use vstd::prelude::*;

verus! {

pub const UNSUPPORTED_PAYLOAD_MESSAGE: &'static str = "todo_write handler received unsupported payload";

pub const TODO_LIST_UPDATED_MESSAGE: &'static str = "Todo list updated";

#[derive(Clone, Copy, Debug, PartialEq, Eq, Structural)]
pub enum ToolKind {
    Function,
    Mcp,
}

/// What a tool invocation carries.
#[derive(Clone, Debug, PartialEq, Eq)]
pub enum ToolPayload {
    Function { arguments: String },
    Custom { input: String },
}

#[derive(Clone, Debug, PartialEq, Eq)]
pub enum FunctionCallError {
    RespondToModel(String),
}

pub struct TodoWriteHandler;

impl TodoWriteHandler {
    pub fn kind(&self) -> (r: ToolKind)
        ensures
            r == ToolKind::Function,
    {
        ToolKind::Function
    }

    /// The JSON arguments of a function-call payload; any other payload is
    /// answered with an error for the model.
    pub fn payload_arguments(&self, payload: ToolPayload) -> (r: Result<String, FunctionCallError>)
        ensures
            payload matches ToolPayload::Function { arguments } ==> r == Ok::<
                String,
                FunctionCallError,
            >(arguments),
            !(payload is Function) ==> (r matches Err(FunctionCallError::RespondToModel(m)) && m@
                == UNSUPPORTED_PAYLOAD_MESSAGE@),
    {
        match payload {
            ToolPayload::Function { arguments } => Ok(arguments),
            _ => Err(FunctionCallError::RespondToModel(UNSUPPORTED_PAYLOAD_MESSAGE.to_owned())),
        }
    }

    /// The reply to the model once the list has been recorded.
    pub fn completion_message(&self) -> (r: String)
        ensures
            r@ == TODO_LIST_UPDATED_MESSAGE@,
    {
        TODO_LIST_UPDATED_MESSAGE.to_owned()
    }
}

} // verus!
