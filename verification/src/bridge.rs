//! The script side of the bridge to the session that runs user code.
//!
//! Each operation sends the request that [`repl_request`] makes, waits for one response,
//! and gives the script what the function of its name makes of it. No response comes once
//! the session is gone.

use crate::cdp::{CallArgument, CallFunctionOnResponse, RemoteObject};
use crate::channels::{ErrorClass, OpError};
use crate::json::{json_from_u32, json_of, Json};
use crate::repl::{
    response_kind, response_of, JupyterReplRequest, JupyterReplResponse, ReplOutcome,
    TsEvaluateResponse,
};
use serde_json::Value;
use vstd::prelude::*;

verus! {

/// A function and the values on which a script calls it.
pub struct CallFunctionOnArgsParams {
    pub function_declaration: String,
    pub arguments: Vec<RemoteObject>,
}

/// The operations of the bridge that get a response.
pub enum ReplOp {
    Evaluate { code: String },
    GetProperties { object_id: String },
    GlobalLexicalScopeNames,
    EvaluateExpression { expr: String },
    CallFunctionOnArgs { params: CallFunctionOnArgsParams },
    BroadcastResult { execution_count: u32, result: CallArgument },
}

/// Whether an argument is a number.
pub open spec fn is_number(arg: CallArgument, number: u32) -> bool {
    &&& arg.value matches Some(value)
    &&& json_of(value) == Json::Integer(number as int)
    &&& arg.unserializable_value is None
    &&& arg.object_id is None
}

/// Whether a request is the one that an operation sends.
pub open spec fn requests(op: ReplOp, request: JupyterReplRequest) -> bool {
    match op {
        ReplOp::Evaluate { code } => request
            == (JupyterReplRequest::EvaluateLineWithObjectWrapping { line: code }),
        ReplOp::GetProperties { object_id } => request
            == (JupyterReplRequest::GetProperties { object_id }),
        ReplOp::GlobalLexicalScopeNames => request == JupyterReplRequest::GlobalLexicalScopeNames,
        ReplOp::EvaluateExpression { expr } => request == (JupyterReplRequest::Evaluate { expr }),
        ReplOp::CallFunctionOnArgs { params } => request == (
        JupyterReplRequest::CallFunctionOnArgs {
            function_declaration: params.function_declaration,
            args: params.arguments,
        }),
        ReplOp::BroadcastResult { execution_count, result } => {
            &&& request matches JupyterReplRequest::CallFunctionOn { arg0, arg1 }
            &&& is_number(arg0, execution_count)
            &&& arg1 == result
        },
    }
}

/// The request that an operation sends.
pub fn repl_request(op: ReplOp) -> (request: JupyterReplRequest)
    ensures
        requests(op, request),
        match op {
            ReplOp::Evaluate { code } => request
                == (JupyterReplRequest::EvaluateLineWithObjectWrapping { line: code }),
            ReplOp::GetProperties { object_id } => request
                == (JupyterReplRequest::GetProperties { object_id }),
            ReplOp::GlobalLexicalScopeNames => request is GlobalLexicalScopeNames,
            ReplOp::EvaluateExpression { expr } => request
                == (JupyterReplRequest::Evaluate { expr }),
            ReplOp::CallFunctionOnArgs { params } => {
                &&& request matches JupyterReplRequest::CallFunctionOnArgs {
                    function_declaration,
                    args,
                }
                &&& function_declaration == params.function_declaration
                &&& args == params.arguments
            },
            ReplOp::BroadcastResult { execution_count, result } => {
                &&& request matches JupyterReplRequest::CallFunctionOn { arg0, arg1 }
                &&& arg0.value matches Some(value) && json_of(value) == Json::Integer(
                    execution_count as int,
                )
                &&& arg0.unserializable_value is None
                &&& arg0.object_id is None
                &&& arg1 == result
            },
        },
{
    match op {
        ReplOp::Evaluate { code } => JupyterReplRequest::EvaluateLineWithObjectWrapping {
            line: code,
        },
        ReplOp::GetProperties { object_id } => JupyterReplRequest::GetProperties { object_id },
        ReplOp::GlobalLexicalScopeNames => JupyterReplRequest::GlobalLexicalScopeNames,
        ReplOp::EvaluateExpression { expr } => JupyterReplRequest::Evaluate { expr },
        ReplOp::CallFunctionOnArgs { params } => JupyterReplRequest::CallFunctionOnArgs {
            function_declaration: params.function_declaration,
            args: params.arguments,
        },
        ReplOp::BroadcastResult { execution_count, result } => {
            let count = CallArgument {
                value: Some(json_from_u32(execution_count)),
                unserializable_value: None,
                object_id: None,
            };
            JupyterReplRequest::CallFunctionOn { arg0: count, arg1: result }
        },
    }
}

/// What a script gets of a line of user code: its value, or the text of an error.
pub open spec fn line_value(line: Result<TsEvaluateResponse, String>) -> Result<Value, Seq<char>> {
    match line {
        Ok(line) => match line.value.document {
            Ok(document) => Ok(document),
            Err(reason) => Err("serialize EvaluateResponse: "@ + reason@),
        },
        Err(reason) => Err(reason@),
    }
}

/// What a script gets of a function that was called on values in the isolate: what it
/// returned, or the text of an error.
pub open spec fn called_value(called: Result<CallFunctionOnResponse, String>) -> Result<
    Value,
    Seq<char>,
> {
    match called {
        Ok(called) => match called.document {
            Ok(document) => Ok(document),
            Err(reason) => Err(reason@),
        },
        Err(reason) => Err(reason@),
    }
}

/// What a script gets of a document that may be missing or impossible to write.
pub open spec fn readable(document: Option<Result<Value, String>>) -> Option<Value> {
    match document {
        Some(Ok(document)) => Some(document),
        _ => None,
    }
}

/// The text of the error of an operation whose session is gone.
pub open spec fn bridge_closed() -> Seq<char> {
    "REPL bridge closed"@
}

/// What a script gets of the response to [`ReplOp::Evaluate`].
pub open spec fn evaluated(response: Option<JupyterReplResponse>) -> Result<Value, Seq<char>> {
    match response {
        Some(JupyterReplResponse::EvaluateLineWithObjectWrapping(line)) => line_value(line),
        _ => Err(bridge_closed()),
    }
}

/// What a script gets of the response to [`ReplOp::CallFunctionOnArgs`].
pub open spec fn called_on_args(response: Option<JupyterReplResponse>) -> Result<Value, Seq<char>> {
    match response {
        Some(JupyterReplResponse::CallFunctionOnArgs(called)) => called_value(called),
        _ => Err(bridge_closed()),
    }
}

/// What a script gets of the response to [`ReplOp::GetProperties`].
pub open spec fn properties(response: Option<JupyterReplResponse>) -> Option<Value> {
    match response {
        Some(JupyterReplResponse::GetProperties(Some(properties))) => readable(
            Some(properties.document),
        ),
        _ => None,
    }
}

/// What a script gets of the response to [`ReplOp::EvaluateExpression`].
pub open spec fn expression(response: Option<JupyterReplResponse>) -> Option<Value> {
    match response {
        Some(JupyterReplResponse::Evaluate(Some(evaluated))) => readable(Some(evaluated.document)),
        _ => None,
    }
}

/// What a script gets of the response to [`ReplOp::GlobalLexicalScopeNames`].
pub open spec fn scope_names(response: Option<JupyterReplResponse>) -> Seq<String> {
    match response {
        Some(JupyterReplResponse::GlobalLexicalScopeNames(scope)) => scope.names@,
        _ => Seq::empty(),
    }
}

/// The response to a request that had this outcome.
pub open spec fn answer(request: JupyterReplRequest, outcome: ReplOutcome) -> Option<
    JupyterReplResponse,
> {
    match response_kind(request) {
        Some(kind) => response_of(kind, outcome),
        None => None,
    }
}

/// Whatever comes of a request, the script that had it sent gets it back: the response is
/// of the kind that the operation takes, and carries the outcome unchanged.
pub proof fn law_outcome_comes_back(op: ReplOp, request: JupyterReplRequest)
    requires
        requests(op, request),
    ensures
        match op {
            ReplOp::Evaluate { .. } => forall|line: Result<TsEvaluateResponse, String>|
                evaluated(#[trigger] answer(request, ReplOutcome::Line(line))) == line_value(line),
            ReplOp::CallFunctionOnArgs { .. } => forall|
                called: Result<CallFunctionOnResponse, String>,
            |
                called_on_args(#[trigger] answer(request, ReplOutcome::Called(called)))
                    == called_value(called),
            ReplOp::GetProperties { .. } => forall|document: Option<Result<Value, String>>|
                properties(#[trigger] answer(request, ReplOutcome::Document(document)))
                    == readable(document),
            ReplOp::EvaluateExpression { .. } => forall|document: Option<Result<Value, String>>|
                expression(#[trigger] answer(request, ReplOutcome::Document(document)))
                    == readable(document),
            ReplOp::GlobalLexicalScopeNames => forall|names: Vec<String>|
                scope_names(#[trigger] answer(request, ReplOutcome::Names(names))) == names@,
            ReplOp::BroadcastResult { .. } => forall|document: Option<Result<Value, String>>|
                (#[trigger] answer(request, ReplOutcome::Document(document)))
                    matches Some(JupyterReplResponse::CallFunctionOn(_)),
        },
{
}

/// Whether a result is a value or a generic error with a text, as stated.
pub open spec fn gives(result: Result<Value, OpError>, stated: Result<Value, Seq<char>>) -> bool {
    match stated {
        Ok(value) => result == Ok::<Value, OpError>(value),
        Err(text) => {
            &&& result matches Err(error)
            &&& error.class == ErrorClass::Generic
            &&& error.message@ == text
        },
    }
}

/// The value of a line of user code, or an error.
pub fn op_jupyter_repl_evaluate(response: Option<JupyterReplResponse>) -> (value: Result<
    Value,
    OpError,
>)
    ensures
        gives(value, evaluated(response)),
        response matches Some(JupyterReplResponse::EvaluateLineWithObjectWrapping(Ok(line))) ==> {
            &&& line.value.document matches Ok(document) ==> value == Ok::<Value, OpError>(document)
            &&& line.value.document matches Err(reason) ==> {
                &&& value matches Err(error)
                &&& error.class == ErrorClass::Generic
                &&& error.message@ == "serialize EvaluateResponse: "@ + reason@
            }
        },
        response matches Some(JupyterReplResponse::EvaluateLineWithObjectWrapping(Err(reason)))
            ==> {
            &&& value matches Err(error)
            &&& error.class == ErrorClass::Generic
            &&& error.message@ == reason@
        },
        !(response matches Some(JupyterReplResponse::EvaluateLineWithObjectWrapping(_))) ==> {
            &&& value matches Err(error)
            &&& error.class == ErrorClass::Generic
            &&& error.message@ == "REPL bridge closed"@
        },
{
    match response {
        Some(JupyterReplResponse::EvaluateLineWithObjectWrapping(line)) => match line {
            Ok(line) => match line.value.document {
                Ok(document) => Ok(document),
                Err(reason) => {
                    let mut message = "serialize EvaluateResponse: ".to_owned();
                    message.append(reason.as_str());
                    Err(OpError { class: ErrorClass::Generic, message })
                },
            },
            Err(message) => Err(OpError { class: ErrorClass::Generic, message }),
        },
        _ => Err(
            OpError { class: ErrorClass::Generic, message: "REPL bridge closed".to_owned() },
        ),
    }
}

/// The properties of an object, if they could be read.
pub fn op_jupyter_repl_get_properties(response: Option<JupyterReplResponse>) -> (value: Option<
    Value,
>)
    ensures
        value == properties(response),
        response matches Some(JupyterReplResponse::GetProperties(Some(found))) ==> {
            &&& found.document matches Ok(document) ==> value == Some(document)
            &&& found.document is Err ==> value is None
        },
        !(response matches Some(JupyterReplResponse::GetProperties(Some(_)))) ==> value is None,
{
    match response {
        Some(JupyterReplResponse::GetProperties(Some(properties))) => match properties.document {
            Ok(document) => Some(document),
            Err(_) => None,
        },
        _ => None,
    }
}

/// The names of the global scope; none once the session is gone.
pub fn op_jupyter_repl_global_lexical_scope_names(response: Option<JupyterReplResponse>) -> (names:
    Vec<String>)
    ensures
        names@ == scope_names(response),
        response matches Some(JupyterReplResponse::GlobalLexicalScopeNames(scope)) ==> names@
            == scope.names@,
        !(response matches Some(JupyterReplResponse::GlobalLexicalScopeNames(_))) ==> names@.len()
            == 0,
{
    match response {
        Some(JupyterReplResponse::GlobalLexicalScopeNames(scope)) => scope.names,
        _ => Vec::new(),
    }
}

/// The value of an expression, if it could be had without a side effect.
pub fn op_jupyter_repl_evaluate_expression(response: Option<JupyterReplResponse>) -> (value: Option<
    Value,
>)
    ensures
        value == expression(response),
        response matches Some(JupyterReplResponse::Evaluate(Some(found))) ==> {
            &&& found.document matches Ok(document) ==> value == Some(document)
            &&& found.document is Err ==> value is None
        },
        !(response matches Some(JupyterReplResponse::Evaluate(Some(_)))) ==> value is None,
{
    match response {
        Some(JupyterReplResponse::Evaluate(Some(evaluated))) => match evaluated.document {
            Ok(document) => Some(document),
            Err(_) => None,
        },
        _ => None,
    }
}

/// What a function returned that was called on values in the isolate, or an error.
pub fn op_jupyter_repl_call_function_on_args(response: Option<JupyterReplResponse>) -> (value:
    Result<Value, OpError>)
    ensures
        gives(value, called_on_args(response)),
        response matches Some(JupyterReplResponse::CallFunctionOnArgs(Ok(called))) ==> {
            &&& called.document matches Ok(document) ==> value == Ok::<Value, OpError>(document)
            &&& called.document matches Err(reason) ==> {
                &&& value matches Err(error)
                &&& error.class == ErrorClass::Generic
                &&& error.message@ == reason@
            }
        },
        response matches Some(JupyterReplResponse::CallFunctionOnArgs(Err(reason))) ==> {
            &&& value matches Err(error)
            &&& error.class == ErrorClass::Generic
            &&& error.message@ == reason@
        },
        !(response matches Some(JupyterReplResponse::CallFunctionOnArgs(_))) ==> {
            &&& value matches Err(error)
            &&& error.class == ErrorClass::Generic
            &&& error.message@ == "REPL bridge closed"@
        },
{
    match response {
        Some(JupyterReplResponse::CallFunctionOnArgs(called)) => match called {
            Ok(called) => match called.document {
                Ok(document) => Ok(document),
                Err(message) => Err(OpError { class: ErrorClass::Generic, message }),
            },
            Err(message) => Err(OpError { class: ErrorClass::Generic, message }),
        },
        _ => Err(
            OpError { class: ErrorClass::Generic, message: "REPL bridge closed".to_owned() },
        ),
    }
}

/// Whether a result was shown. Any response of the kind will do: what the function
/// returned carries no information.
pub fn op_jupyter_repl_broadcast_result(response: Option<JupyterReplResponse>) -> (shown: Result<
    (),
    OpError,
>)
    ensures
        match response {
            Some(JupyterReplResponse::CallFunctionOn(_)) => shown is Ok,
            _ => {
                &&& shown matches Err(error)
                &&& error.class == ErrorClass::Generic
                &&& error.message@ == bridge_closed()
            },
        },
        shown is Ok <==> response matches Some(JupyterReplResponse::CallFunctionOn(_)),
        shown matches Err(error) ==> error.class == ErrorClass::Generic && error.message@
            == "REPL bridge closed"@,
{
    match response {
        Some(JupyterReplResponse::CallFunctionOn(_)) => Ok(()),
        _ => Err(
            OpError { class: ErrorClass::Generic, message: "REPL bridge closed".to_owned() },
        ),
    }
}

/// The request that cancels a pending termination. It is sent only while no other
/// operation holds the bridge.
pub fn op_jupyter_repl_cancel_terminate(bridge_free: bool) -> (request: Option<JupyterReplRequest>)
    ensures
        request == if bridge_free {
            Some(JupyterReplRequest::CancelPendingTerminate)
        } else {
            None
        },
{
    if bridge_free {
        Some(JupyterReplRequest::CancelPendingTerminate)
    } else {
        None
    }
}

/// What a script gets of a line of user code is the document of its value, whatever the code
/// was; where there is none, the text says why.
pub proof fn law_value_of_a_line(
    line: TsEvaluateResponse,
    other: TsEvaluateResponse,
    document: Value,
    reason: String,
)
    ensures
        line.value.document == Ok::<Value, String>(document) ==> evaluated(
            Some(JupyterReplResponse::EvaluateLineWithObjectWrapping(Ok(line))),
        ) == Ok::<Value, Seq<char>>(document),
        line.value == other.value ==> evaluated(
            Some(JupyterReplResponse::EvaluateLineWithObjectWrapping(Ok(line))),
        ) == evaluated(Some(JupyterReplResponse::EvaluateLineWithObjectWrapping(Ok(other)))),
        line.value.document == Err::<Value, String>(reason) ==> evaluated(
            Some(JupyterReplResponse::EvaluateLineWithObjectWrapping(Ok(line))),
        ) == Err::<Value, Seq<char>>("serialize EvaluateResponse: "@ + reason@),
        evaluated(Some(JupyterReplResponse::EvaluateLineWithObjectWrapping(Err(reason)))) == Err::<
            Value,
            Seq<char>,
        >(reason@),
        line_value(Ok(line)) == evaluated(
            Some(JupyterReplResponse::EvaluateLineWithObjectWrapping(Ok(line))),
        ),
        line_value(Err(reason)) == Err::<Value, Seq<char>>(reason@),
{
}

/// What a script gets of a function that was called is the document of what it returned;
/// where there is none, the text says why.
pub proof fn law_value_of_a_call(
    called: CallFunctionOnResponse,
    document: Value,
    reason: String,
)
    ensures
        called.document == Ok::<Value, String>(document) ==> called_on_args(
            Some(JupyterReplResponse::CallFunctionOnArgs(Ok(called))),
        ) == Ok::<Value, Seq<char>>(document),
        called.document == Err::<Value, String>(reason) ==> called_on_args(
            Some(JupyterReplResponse::CallFunctionOnArgs(Ok(called))),
        ) == Err::<Value, Seq<char>>(reason@),
        called_on_args(Some(JupyterReplResponse::CallFunctionOnArgs(Err(reason)))) == Err::<
            Value,
            Seq<char>,
        >(reason@),
        called_value(Ok(called)) == called_on_args(
            Some(JupyterReplResponse::CallFunctionOnArgs(Ok(called))),
        ),
        called_value(Err(reason)) == Err::<Value, Seq<char>>(reason@),
{
}

/// A document reaches the script as it is; one that is missing or cannot be written is
/// nothing.
pub proof fn law_documents(document: Value, reason: String)
    ensures
        readable(Some(Ok(document))) == Some(document),
        readable(Some(Err(reason))) is None,
        readable(None) is None,
        properties(
            Some(
                JupyterReplResponse::GetProperties(
                    Some(crate::cdp::GetPropertiesResponse { document: Ok(document) }),
                ),
            ),
        ) == Some(document),
        expression(
            Some(
                JupyterReplResponse::Evaluate(
                    Some(crate::cdp::EvaluateResponse { document: Ok(document) }),
                ),
            ),
        ) == Some(document),
{
}

/// Without a response of its kind an operation gives an error that the bridge is closed, or
/// nothing.
pub proof fn law_closed_bridge(response: Option<JupyterReplResponse>)
    ensures
        bridge_closed() == "REPL bridge closed"@,
        !(response matches Some(JupyterReplResponse::EvaluateLineWithObjectWrapping(_)))
            ==> evaluated(response) == Err::<Value, Seq<char>>("REPL bridge closed"@),
        !(response matches Some(JupyterReplResponse::CallFunctionOnArgs(_))) ==> called_on_args(
            response,
        ) == Err::<Value, Seq<char>>("REPL bridge closed"@),
        !(response matches Some(JupyterReplResponse::GetProperties(_))) ==> properties(
            response,
        ) is None,
        !(response matches Some(JupyterReplResponse::Evaluate(_))) ==> expression(response) is None,
        response matches Some(JupyterReplResponse::GlobalLexicalScopeNames(scope)) ==> scope_names(
            response,
        ) == scope.names@,
        !(response matches Some(JupyterReplResponse::GlobalLexicalScopeNames(_))) ==> scope_names(
            response,
        ).len() == 0,
{
}

/// Each operation sends the request of its own kind, with what the script gave it; a count
/// goes out as that number.
pub proof fn law_operations_send_their_requests(op: ReplOp, request: JupyterReplRequest)
    requires
        requests(op, request),
    ensures
        match op {
            ReplOp::Evaluate { code } => {
                &&& request matches JupyterReplRequest::EvaluateLineWithObjectWrapping { line }
                &&& line == code
            },
            ReplOp::GetProperties { object_id } => {
                &&& request matches JupyterReplRequest::GetProperties { object_id: asked }
                &&& asked == object_id
            },
            ReplOp::GlobalLexicalScopeNames => request is GlobalLexicalScopeNames,
            ReplOp::EvaluateExpression { expr } => {
                &&& request matches JupyterReplRequest::Evaluate { expr: asked }
                &&& asked == expr
            },
            ReplOp::CallFunctionOnArgs { params } => {
                &&& request matches JupyterReplRequest::CallFunctionOnArgs {
                    function_declaration,
                    args,
                }
                &&& function_declaration == params.function_declaration
                &&& args == params.arguments
            },
            ReplOp::BroadcastResult { execution_count, result } => {
                &&& request matches JupyterReplRequest::CallFunctionOn { arg0, arg1 }
                &&& arg0.value matches Some(value) && json_of(value) == Json::Integer(
                    execution_count as int,
                )
                &&& arg0.unserializable_value is None
                &&& arg0.object_id is None
                &&& arg1 == result
            },
        },
{
}

} // verus!
