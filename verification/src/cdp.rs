//! Messages of the inspector protocol through which user code is driven.

use serde_json::Value;
use vstd::prelude::*;

verus! {

/// A value in the isolate, as the inspector describes it.
pub struct RemoteObject {
    pub document: Value,
}

/// An argument of a function call: a value, or the name of one in the isolate.
pub struct CallArgument {
    pub value: Option<Value>,
    pub unserializable_value: Option<String>,
    pub object_id: Option<String>,
}

/// The arguments of `Runtime.getProperties`.
pub struct GetPropertiesArgs {
    pub object_id: String,
    pub own_properties: Option<bool>,
    pub accessor_properties_only: Option<bool>,
    pub generate_preview: Option<bool>,
    pub non_indexed_properties_only: Option<bool>,
}

/// The arguments of `Runtime.evaluate`.
pub struct EvaluateArgs {
    pub expression: String,
    pub object_group: Option<String>,
    pub include_command_line_api: Option<bool>,
    pub silent: Option<bool>,
    pub context_id: Option<u64>,
    pub return_by_value: Option<bool>,
    pub generate_preview: Option<bool>,
    pub user_gesture: Option<bool>,
    pub await_promise: Option<bool>,
    pub throw_on_side_effect: Option<bool>,
    pub timeout: Option<u64>,
    pub disable_breaks: Option<bool>,
    pub repl_mode: Option<bool>,
    pub allow_unsafe_eval_blocked_by_csp: Option<bool>,
    pub unique_context_id: Option<String>,
}

/// The arguments of `Runtime.globalLexicalScopeNames`.
pub struct GlobalLexicalScopeNamesArgs {
    pub execution_context_id: Option<u64>,
}

/// The arguments of `Runtime.callFunctionOn`.
pub struct CallFunctionOnArgs {
    pub function_declaration: String,
    pub arguments: Vec<CallArgument>,
    pub execution_context_id: u64,
    pub await_promise: bool,
}

/// A message to the inspector.
pub enum CdpCall {
    GetProperties(GetPropertiesArgs),
    Evaluate(EvaluateArgs),
    GlobalLexicalScopeNames(GlobalLexicalScopeNamesArgs),
    CallFunctionOn(CallFunctionOnArgs),
}

impl CdpCall {
    /// The method of a message.
    pub fn method(&self) -> (method: &'static str)
        ensures
            method@ == match self {
                CdpCall::GetProperties(_) => "Runtime.getProperties"@,
                CdpCall::Evaluate(_) => "Runtime.evaluate"@,
                CdpCall::GlobalLexicalScopeNames(_) => "Runtime.globalLexicalScopeNames"@,
                CdpCall::CallFunctionOn(_) => "Runtime.callFunctionOn"@,
            },
    {
        match self {
            CdpCall::GetProperties(_) => "Runtime.getProperties",
            CdpCall::Evaluate(_) => "Runtime.evaluate",
            CdpCall::GlobalLexicalScopeNames(_) => "Runtime.globalLexicalScopeNames",
            CdpCall::CallFunctionOn(_) => "Runtime.callFunctionOn",
        }
    }
}

/// The answer to `Runtime.getProperties`: the document, or why it cannot be written as one.
pub struct GetPropertiesResponse {
    pub document: Result<Value, String>,
}

/// The answer to `Runtime.evaluate`: the document, or why it cannot be written as one.
pub struct EvaluateResponse {
    pub document: Result<Value, String>,
}

/// The answer to `Runtime.globalLexicalScopeNames`.
pub struct GlobalLexicalScopeNamesResponse {
    pub names: Vec<String>,
}

/// The answer to `Runtime.callFunctionOn`: the document, or why it cannot be written as one.
pub struct CallFunctionOnResponse {
    pub document: Result<Value, String>,
}

} // verus!
