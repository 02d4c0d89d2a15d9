use jupyter_transport::bridge::{
    op_jupyter_repl_broadcast_result, op_jupyter_repl_call_function_on_args,
    op_jupyter_repl_cancel_terminate, op_jupyter_repl_evaluate,
    op_jupyter_repl_evaluate_expression, op_jupyter_repl_get_properties,
    op_jupyter_repl_global_lexical_scope_names, repl_request, CallFunctionOnArgsParams, ReplOp,
};
use jupyter_transport::cdp::{
    CallArgument, CallFunctionOnResponse, CdpCall, EvaluateResponse, RemoteObject,
};
use jupyter_transport::channels::ErrorClass;
use jupyter_transport::repl::{
    respond, JupyterReplRequest, JupyterReplResponse, JupyterReplSession, ReplAction, ReplEvent,
    ReplOutcome, ResponseKind, TsEvaluateResponse,
};
use serde_json::Value;

/// Sends the request of an operation to a session and gives the response that an outcome
/// makes.
fn answered(op: ReplOp, outcome: ReplOutcome) -> Option<JupyterReplResponse> {
    let (_, kind) = JupyterReplSession::start(3).handle_message(repl_request(op));
    respond(kind.unwrap(), outcome)
}

fn line(document: Result<Value, String>) -> ReplOutcome {
    ReplOutcome::Line(Ok(TsEvaluateResponse {
        ts_code: String::new(),
        value: EvaluateResponse { document },
    }))
}

#[test]
fn evaluated_line_comes_back() {
    let op = || ReplOp::Evaluate { code: "1 + 1".to_string() };
    let response = answered(op(), line(Ok(Value::from(2))));
    assert_eq!(op_jupyter_repl_evaluate(response).ok(), Some(Value::from(2)));

    let error = op_jupyter_repl_evaluate(answered(op(), line(Err("depth".to_string()))));
    let error = error.err().unwrap();
    assert_eq!(error.class, ErrorClass::Generic);
    assert_eq!(error.message, "serialize EvaluateResponse: depth");

    let failed = ReplOutcome::Line(Err("boom".to_string()));
    let error = op_jupyter_repl_evaluate(answered(op(), failed)).err().unwrap();
    assert_eq!(error.class, ErrorClass::Generic);
    assert_eq!(error.message, "boom");
}

#[test]
fn called_function_comes_back() {
    let op = || ReplOp::CallFunctionOnArgs {
        params: CallFunctionOnArgsParams {
            function_declaration: "f".to_string(),
            arguments: vec![RemoteObject { document: Value::Null }],
        },
    };
    let called = |document| ReplOutcome::Called(Ok(CallFunctionOnResponse { document }));
    let response = answered(op(), called(Ok(Value::from("x"))));
    assert_eq!(op_jupyter_repl_call_function_on_args(response).ok(), Some(Value::from("x")));
    let response = answered(op(), called(Err("depth".to_string())));
    assert_eq!(op_jupyter_repl_call_function_on_args(response).err().unwrap().message, "depth");
    let response = answered(op(), ReplOutcome::Called(Err("boom".to_string())));
    assert_eq!(op_jupyter_repl_call_function_on_args(response).err().unwrap().message, "boom");
}

#[test]
fn documents_come_back() {
    let properties = || ReplOp::GetProperties { object_id: "1".to_string() };
    let expression = || ReplOp::EvaluateExpression { expr: "a".to_string() };
    for (outcome, expected) in [
        (Some(Ok(Value::from(5))), Some(Value::from(5))),
        (Some(Err("depth".to_string())), None),
        (None, None),
    ] {
        let response = answered(properties(), ReplOutcome::Document(outcome.clone()));
        assert_eq!(op_jupyter_repl_get_properties(response), expected);
        let response = answered(expression(), ReplOutcome::Document(outcome));
        assert_eq!(op_jupyter_repl_evaluate_expression(response), expected);
    }
}

#[test]
fn scope_names_come_back() {
    let names = vec!["a".to_string(), "b".to_string()];
    let response =
        answered(ReplOp::GlobalLexicalScopeNames, ReplOutcome::Names(names.clone()));
    assert_eq!(op_jupyter_repl_global_lexical_scope_names(response), names);
}

#[test]
fn result_is_shown() {
    let argument = || CallArgument {
        value: None,
        unserializable_value: None,
        object_id: Some("7".to_string()),
    };
    let op = || ReplOp::BroadcastResult { execution_count: 4_000_000_000, result: argument() };
    for outcome in [None, Some(Ok(Value::Null))] {
        let response = answered(op(), ReplOutcome::Document(outcome));
        assert!(op_jupyter_repl_broadcast_result(response).is_ok());
    }

    let (action, _) = JupyterReplSession::start(3).handle_message(repl_request(op()));
    let ReplAction::Post(call) = action else { panic!("no message") };
    assert_eq!(call.method(), "Runtime.callFunctionOn");
    let CdpCall::CallFunctionOn(args) = call else { panic!("another message") };
    assert_eq!(
        args.function_declaration,
        "async function (execution_count, result) {\n            \
         await Deno[Deno.internal].jupyter.broadcastResult(execution_count, result);\n          }"
    );
    assert_eq!(args.arguments.len(), 2);
    assert_eq!(args.arguments[0].value, Some(Value::from(4_000_000_000u32)));
    assert_eq!(args.arguments[0].object_id, None);
    assert_eq!(args.arguments[0].unserializable_value, None);
    assert_eq!(args.arguments[1].object_id.as_deref(), Some("7"));
    assert_eq!(args.execution_context_id, 3);
    assert!(args.await_promise);
}

#[test]
fn closed_bridge() {
    assert_eq!(op_jupyter_repl_evaluate(None).err().unwrap().message, "REPL bridge closed");
    assert_eq!(
        op_jupyter_repl_call_function_on_args(None).err().unwrap().message,
        "REPL bridge closed"
    );
    let error = op_jupyter_repl_broadcast_result(None).err().unwrap();
    assert_eq!(error.class, ErrorClass::Generic);
    assert_eq!(error.message, "REPL bridge closed");
    assert_eq!(op_jupyter_repl_get_properties(None), None);
    assert_eq!(op_jupyter_repl_evaluate_expression(None), None);
    assert!(op_jupyter_repl_global_lexical_scope_names(None).is_empty());
}

#[test]
fn response_of_another_kind() {
    let other = || Some(JupyterReplResponse::Evaluate(None));
    assert_eq!(op_jupyter_repl_evaluate(other()).err().unwrap().message, "REPL bridge closed");
    assert!(op_jupyter_repl_broadcast_result(other()).is_err());
    assert!(op_jupyter_repl_global_lexical_scope_names(other()).is_empty());
    assert!(respond(ResponseKind::Evaluate, ReplOutcome::Names(Vec::new())).is_none());
}

#[test]
fn messages_to_the_inspector() {
    let session = JupyterReplSession::start(8);
    let call = session.get_properties("obj".to_string());
    assert_eq!(call.method(), "Runtime.getProperties");
    let CdpCall::GetProperties(args) = call else { panic!("another message") };
    assert_eq!(args.object_id, "obj");
    assert_eq!(args.own_properties, None);
    assert_eq!(args.non_indexed_properties_only, Some(true));

    let call = session.evaluate("x".to_string());
    assert_eq!(call.method(), "Runtime.evaluate");
    let CdpCall::Evaluate(args) = call else { panic!("another message") };
    assert_eq!(args.expression, "x");
    assert_eq!(args.context_id, Some(8));
    assert_eq!(args.throw_on_side_effect, Some(true));
    assert_eq!(args.timeout, Some(200));
    assert_eq!(args.await_promise, None);

    let call = session.global_lexical_scope_names();
    assert_eq!(call.method(), "Runtime.globalLexicalScopeNames");
    let CdpCall::GlobalLexicalScopeNames(args) = call else { panic!("another message") };
    assert_eq!(args.execution_context_id, Some(8));
}

#[test]
fn actions_in_the_isolate() {
    let session = JupyterReplSession::start(1);
    let request = JupyterReplRequest::EvaluateLineWithObjectWrapping { line: "a".to_string() };
    let (action, kind) = session.handle_message(request);
    assert!(matches!(action, ReplAction::EvaluateLine { line } if line == "a"));
    assert_eq!(kind, Some(ResponseKind::EvaluateLineWithObjectWrapping));

    let request = JupyterReplRequest::CallFunctionOnArgs {
        function_declaration: "f".to_string(),
        args: Vec::new(),
    };
    let (action, kind) = session.handle_message(request);
    assert!(matches!(
        action,
        ReplAction::CallOnArgs { function_declaration, args }
            if function_declaration == "f" && args.is_empty()
    ));
    assert_eq!(kind, Some(ResponseKind::CallFunctionOnArgs));
}

#[test]
fn cancel_is_not_answered() {
    assert!(op_jupyter_repl_cancel_terminate(false).is_none());
    let request = op_jupyter_repl_cancel_terminate(true).unwrap();
    let (action, kind) = JupyterReplSession::start(1).handle_message(request);
    assert!(matches!(action, ReplAction::CancelTerminate));
    assert_eq!(kind, None);
}

#[test]
fn session_runs_until_it_is_closed() {
    let mut session = JupyterReplSession::start(1);
    assert!(session.running && session.poll_worker);
    session.on_event(ReplEvent::EventLoopDone);
    assert!(session.running && !session.poll_worker);
    session.on_event(ReplEvent::Served { sent: true });
    assert!(session.running && session.poll_worker);
    session.on_event(ReplEvent::Closed);
    assert!(!session.running);

    let mut session = JupyterReplSession::start(1);
    session.on_event(ReplEvent::Served { sent: false });
    assert!(!session.running);
    assert_eq!(session.context_id, 1);
}
