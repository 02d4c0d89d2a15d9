//! The bridge between the script side of the kernel and the session that runs user code.
//!
//! The script side sends a request and waits for one response. The session takes the
//! requests one by one, has the inspector or the isolate carry them out, and answers each
//! with a response of its kind. Only the request to cancel a termination is not answered.

use crate::cdp::{
    CallArgument, CallFunctionOnArgs, CallFunctionOnResponse, CdpCall, EvaluateArgs,
    EvaluateResponse, GetPropertiesArgs, GetPropertiesResponse, GlobalLexicalScopeNamesArgs,
    GlobalLexicalScopeNamesResponse, RemoteObject,
};
use serde_json::Value;
use vstd::prelude::*;

verus! {

/// What the script side asks of the session.
pub enum JupyterReplRequest {
    GetProperties { object_id: String },
    Evaluate { expr: String },
    GlobalLexicalScopeNames,
    EvaluateLineWithObjectWrapping { line: String },
    CallFunctionOnArgs { function_declaration: String, args: Vec<RemoteObject> },
    CallFunctionOn { arg0: CallArgument, arg1: CallArgument },
    CancelPendingTerminate,
}

/// What comes of a line of user code: the code that was run, and its value.
pub struct TsEvaluateResponse {
    pub ts_code: String,
    pub value: EvaluateResponse,
}

/// What the session answers. An error is given by its text.
pub enum JupyterReplResponse {
    GetProperties(Option<GetPropertiesResponse>),
    Evaluate(Option<EvaluateResponse>),
    GlobalLexicalScopeNames(GlobalLexicalScopeNamesResponse),
    EvaluateLineWithObjectWrapping(Result<TsEvaluateResponse, String>),
    CallFunctionOnArgs(Result<CallFunctionOnResponse, String>),
    CallFunctionOn(Option<CallFunctionOnResponse>),
}

/// Shared handle used by the script side to call into the session.
pub struct JupyterReplProxy<T, R> {
    pub tx: T,
    pub rx: R,
}

/// What the session has to do for a request.
pub enum ReplAction {
    /// Post a message to the inspector while the event loop runs.
    Post(CdpCall),
    /// Cancel a pending termination, then evaluate a line of user code.
    EvaluateLine { line: String },
    /// Call a function on values in the isolate.
    CallOnArgs { function_declaration: String, args: Vec<RemoteObject> },
    /// Cancel a pending termination.
    CancelTerminate,
}

/// The function that shows a result in the notebook.
pub open spec fn broadcast_function() -> Seq<char> {
    "async function (execution_count, result) {
            await Deno[Deno.internal].jupyter.broadcastResult(execution_count, result);
          }"@
}

/// The session that runs user code: the context in which it runs, whether the event loop
/// has to be polled, and whether requests are still served.
#[derive(Debug)]
pub struct JupyterReplSession {
    pub context_id: u64,
    pub poll_worker: bool,
    pub running: bool,
}

/// What happens to a session.
#[derive(Debug)]
pub enum ReplEvent {
    /// The script side is gone.
    Closed,
    /// A request was carried out, and its response, if it has one, was sent or could not be.
    Served { sent: bool },
    /// The event loop ran dry.
    EventLoopDone,
}

impl JupyterReplSession {
    /// The session at its start: requests are served, and the event loop is polled while
    /// there is none.
    pub open spec fn started(context_id: u64) -> Self {
        JupyterReplSession { context_id, poll_worker: true, running: true }
    }

    /// The session after an event. Without the script side it ends. After a request the
    /// event loop may have work again; where it ran dry it is left alone.
    pub open spec fn after(self, event: ReplEvent) -> Self {
        match event {
            ReplEvent::Closed => JupyterReplSession { running: false, ..self },
            ReplEvent::Served { sent: false } => JupyterReplSession { running: false, ..self },
            ReplEvent::Served { sent: true } => JupyterReplSession { poll_worker: true, ..self },
            ReplEvent::EventLoopDone => JupyterReplSession { poll_worker: false, ..self },
        }
    }

    /// The session after some events.
    pub open spec fn after_all(self, events: Seq<ReplEvent>) -> Self
        decreases events.len(),
    {
        if events.len() == 0 {
            self
        } else {
            self.after_all(events.drop_last()).after(events.last())
        }
    }

    /// Starts a session.
    pub fn start(context_id: u64) -> (session: Self)
        ensures
            session == Self::started(context_id),
            session.context_id == context_id,
            session.poll_worker,
            session.running,
    {
        JupyterReplSession { context_id, poll_worker: true, running: true }
    }

    /// Takes note of an event.
    pub fn on_event(&mut self, event: ReplEvent)
        ensures
            *final(self) == old(self).after(event),
            final(self).context_id == old(self).context_id,
            final(self).running == (old(self).running && !(event is Closed) && event != (
            ReplEvent::Served { sent: false })),
            final(self).poll_worker == if event is EventLoopDone {
                false
            } else if event == (ReplEvent::Served { sent: true }) {
                true
            } else {
                old(self).poll_worker
            },
    {
        match event {
            ReplEvent::Closed => {
                self.running = false;
            },
            ReplEvent::Served { sent } => {
                if sent {
                    self.poll_worker = true;
                } else {
                    self.running = false;
                }
            },
            ReplEvent::EventLoopDone => {
                self.poll_worker = false;
            },
        }
    }

    /// The message that asks for the named properties of an object.
    pub open spec fn get_properties_call(self, object_id: String) -> CdpCall {
        CdpCall::GetProperties(
            GetPropertiesArgs {
                object_id,
                own_properties: None,
                accessor_properties_only: None,
                generate_preview: None,
                non_indexed_properties_only: Some(true),
            },
        )
    }

    /// The message that asks for the named properties of an object.
    pub fn get_properties(&self, object_id: String) -> (call: CdpCall)
        ensures
            call == self.get_properties_call(object_id),
            call == CdpCall::GetProperties(
                GetPropertiesArgs {
                    object_id,
                    own_properties: None,
                    accessor_properties_only: None,
                    generate_preview: None,
                    non_indexed_properties_only: Some(true),
                },
            ),
    {
        CdpCall::GetProperties(
            GetPropertiesArgs {
                object_id,
                own_properties: None,
                accessor_properties_only: None,
                generate_preview: None,
                non_indexed_properties_only: Some(true),
            },
        )
    }

    /// The message that evaluates an expression, for a fifth of a second and only if it has
    /// no side effect.
    pub open spec fn evaluate_call(self, expr: String) -> CdpCall {
        CdpCall::Evaluate(
            EvaluateArgs {
                expression: expr,
                object_group: None,
                include_command_line_api: None,
                silent: None,
                context_id: Some(self.context_id),
                return_by_value: None,
                generate_preview: None,
                user_gesture: None,
                await_promise: None,
                throw_on_side_effect: Some(true),
                timeout: Some(200),
                disable_breaks: None,
                repl_mode: None,
                allow_unsafe_eval_blocked_by_csp: None,
                unique_context_id: None,
            },
        )
    }

    /// The message that evaluates an expression, for a fifth of a second and only if it has
    /// no side effect.
    pub fn evaluate(&self, expr: String) -> (call: CdpCall)
        ensures
            call == self.evaluate_call(expr),
            call == CdpCall::Evaluate(
                EvaluateArgs {
                    expression: expr,
                    object_group: None,
                    include_command_line_api: None,
                    silent: None,
                    context_id: Some(self.context_id),
                    return_by_value: None,
                    generate_preview: None,
                    user_gesture: None,
                    await_promise: None,
                    throw_on_side_effect: Some(true),
                    timeout: Some(200),
                    disable_breaks: None,
                    repl_mode: None,
                    allow_unsafe_eval_blocked_by_csp: None,
                    unique_context_id: None,
                },
            ),
    {
        CdpCall::Evaluate(
            EvaluateArgs {
                expression: expr,
                object_group: None,
                include_command_line_api: None,
                silent: None,
                context_id: Some(self.context_id),
                return_by_value: None,
                generate_preview: None,
                user_gesture: None,
                await_promise: None,
                throw_on_side_effect: Some(true),
                timeout: Some(200),
                disable_breaks: None,
                repl_mode: None,
                allow_unsafe_eval_blocked_by_csp: None,
                unique_context_id: None,
            },
        )
    }

    /// The message that asks for the names of the global scope.
    pub fn global_lexical_scope_names(&self) -> (call: CdpCall)
        ensures
            call == CdpCall::GlobalLexicalScopeNames(
                GlobalLexicalScopeNamesArgs { execution_context_id: Some(self.context_id) },
            ),
    {
        CdpCall::GlobalLexicalScopeNames(
            GlobalLexicalScopeNamesArgs { execution_context_id: Some(self.context_id) },
        )
    }

    /// The evaluation of a line of user code.
    pub fn evaluate_line_with_object_wrapping(&self, line: String) -> (action: ReplAction)
        ensures
            action == (ReplAction::EvaluateLine { line }),
    {
        ReplAction::EvaluateLine { line }
    }

    /// The call of a function on values in the isolate.
    pub fn call_function_on_args(
        &self,
        function_declaration: String,
        args: Vec<RemoteObject>,
    ) -> (action: ReplAction)
        ensures
            action == (ReplAction::CallOnArgs { function_declaration, args }),
    {
        ReplAction::CallOnArgs { function_declaration, args }
    }

    /// Whether a message shows a result: it calls the function for that, with these
    /// arguments, in the context of the session, and waits for it.
    pub open spec fn is_broadcast(
        self,
        call: CdpCall,
        arg0: CallArgument,
        arg1: CallArgument,
    ) -> bool {
        &&& call matches CdpCall::CallFunctionOn(args)
        &&& args.function_declaration@ == broadcast_function()
        &&& args.arguments@ == seq![arg0, arg1]
        &&& args.execution_context_id == self.context_id
        &&& args.await_promise
    }

    /// The message that shows a result.
    pub fn call_function_on(&self, arg0: CallArgument, arg1: CallArgument) -> (call: CdpCall)
        ensures
            self.is_broadcast(call, arg0, arg1),
            call matches CdpCall::CallFunctionOn(args) && {
                &&& args.function_declaration@
                    == "async function (execution_count, result) {
            await Deno[Deno.internal].jupyter.broadcastResult(execution_count, result);
          }"@
                &&& args.arguments@.len() == 2
                &&& args.arguments@[0] == arg0
                &&& args.arguments@[1] == arg1
                &&& args.execution_context_id == self.context_id
                &&& args.await_promise
            },
    {
        let function_declaration =
            "async function (execution_count, result) {
            await Deno[Deno.internal].jupyter.broadcastResult(execution_count, result);
          }".to_owned();
        let mut arguments: Vec<CallArgument> = Vec::new();
        arguments.push(arg0);
        arguments.push(arg1);
        assert(arguments@ =~= seq![arg0, arg1]);
        CdpCall::CallFunctionOn(
            CallFunctionOnArgs {
                function_declaration,
                arguments,
                execution_context_id: self.context_id,
                await_promise: true,
            },
        )
    }

    /// Whether an action is what has to be done for a request.
    pub open spec fn serves(self, msg: JupyterReplRequest, action: ReplAction) -> bool {
        match msg {
            JupyterReplRequest::GetProperties { object_id } => action == ReplAction::Post(
                self.get_properties_call(object_id),
            ),
            JupyterReplRequest::Evaluate { expr } => action == ReplAction::Post(
                self.evaluate_call(expr),
            ),
            JupyterReplRequest::GlobalLexicalScopeNames => action == ReplAction::Post(
                CdpCall::GlobalLexicalScopeNames(
                    GlobalLexicalScopeNamesArgs { execution_context_id: Some(self.context_id) },
                ),
            ),
            JupyterReplRequest::EvaluateLineWithObjectWrapping { line } => action
                == (ReplAction::EvaluateLine { line }),
            JupyterReplRequest::CallFunctionOnArgs { function_declaration, args } => action
                == (ReplAction::CallOnArgs { function_declaration, args }),
            JupyterReplRequest::CallFunctionOn { arg0, arg1 } => {
                &&& action matches ReplAction::Post(call)
                &&& self.is_broadcast(call, arg0, arg1)
            },
            JupyterReplRequest::CancelPendingTerminate => action == ReplAction::CancelTerminate,
        }
    }

    /// What has to be done for a request, and the kind of the response that it then gets.
    pub fn handle_message(&self, msg: JupyterReplRequest) -> (step: (
        ReplAction,
        Option<ResponseKind>,
    ))
        ensures
            self.serves(msg, step.0),
            step.1 == response_kind(msg),
            match msg {
                JupyterReplRequest::GetProperties { object_id } => {
                    &&& step.0 matches ReplAction::Post(CdpCall::GetProperties(args))
                    &&& args.object_id == object_id
                    &&& step.1 == Some(ResponseKind::GetProperties)
                },
                JupyterReplRequest::Evaluate { expr } => {
                    &&& step.0 matches ReplAction::Post(CdpCall::Evaluate(args))
                    &&& args.expression == expr
                    &&& args.context_id == Some(self.context_id)
                    &&& step.1 == Some(ResponseKind::Evaluate)
                },
                JupyterReplRequest::GlobalLexicalScopeNames => {
                    &&& step.0 matches ReplAction::Post(CdpCall::GlobalLexicalScopeNames(args))
                    &&& args.execution_context_id == Some(self.context_id)
                    &&& step.1 == Some(ResponseKind::GlobalLexicalScopeNames)
                },
                JupyterReplRequest::EvaluateLineWithObjectWrapping { line } => {
                    &&& step.0 == (ReplAction::EvaluateLine { line })
                    &&& step.1 == Some(ResponseKind::EvaluateLineWithObjectWrapping)
                },
                JupyterReplRequest::CallFunctionOnArgs { function_declaration, args } => {
                    &&& step.0 == (ReplAction::CallOnArgs { function_declaration, args })
                    &&& step.1 == Some(ResponseKind::CallFunctionOnArgs)
                },
                JupyterReplRequest::CallFunctionOn { arg0, arg1 } => {
                    &&& step.0 matches ReplAction::Post(CdpCall::CallFunctionOn(args))
                    &&& args.arguments@ == seq![arg0, arg1]
                    &&& args.execution_context_id == self.context_id
                    &&& step.1 == Some(ResponseKind::CallFunctionOn)
                },
                JupyterReplRequest::CancelPendingTerminate => {
                    &&& step.0 is CancelTerminate
                    &&& step.1 is None
                },
            },
    {
        match msg {
            JupyterReplRequest::GetProperties { object_id } => (
                ReplAction::Post(self.get_properties(object_id)),
                Some(ResponseKind::GetProperties),
            ),
            JupyterReplRequest::Evaluate { expr } => (
                ReplAction::Post(self.evaluate(expr)),
                Some(ResponseKind::Evaluate),
            ),
            JupyterReplRequest::GlobalLexicalScopeNames => (
                ReplAction::Post(self.global_lexical_scope_names()),
                Some(ResponseKind::GlobalLexicalScopeNames),
            ),
            JupyterReplRequest::EvaluateLineWithObjectWrapping { line } => (
                self.evaluate_line_with_object_wrapping(line),
                Some(ResponseKind::EvaluateLineWithObjectWrapping),
            ),
            JupyterReplRequest::CallFunctionOnArgs { function_declaration, args } => (
                self.call_function_on_args(function_declaration, args),
                Some(ResponseKind::CallFunctionOnArgs),
            ),
            JupyterReplRequest::CallFunctionOn { arg0, arg1 } => (
                ReplAction::Post(self.call_function_on(arg0, arg1)),
                Some(ResponseKind::CallFunctionOn),
            ),
            JupyterReplRequest::CancelPendingTerminate => (ReplAction::CancelTerminate, None),
        }
    }
}

/// Whether an event ends a session.
pub open spec fn ends(event: ReplEvent) -> bool {
    event is Closed || event == (ReplEvent::Served { sent: false })
}

/// Whether the event loop ran dry at an event, and no request was served since.
pub open spec fn dry_since(events: Seq<ReplEvent>, i: int) -> bool {
    &&& 0 <= i < events.len()
    &&& events[i] is EventLoopDone
    &&& forall|j: int|
        i < j < events.len() ==> #[trigger] events[j] != (ReplEvent::Served { sent: true })
}

/// A session stays in its context and runs until the script side is gone or a response
/// cannot be sent. The event loop is left alone exactly where it ran dry after the last
/// request that was served.
pub proof fn law_session_runs(context_id: u64, events: Seq<ReplEvent>)
    ensures
        JupyterReplSession::started(context_id).after_all(events).context_id == context_id,
        JupyterReplSession::started(context_id).after_all(events).running <==> (forall|i: int|
            0 <= i < events.len() ==> !ends(#[trigger] events[i])),
        JupyterReplSession::started(context_id).after_all(events).poll_worker <==> (forall|i: int|
            !dry_since(events, i)),
    decreases events.len(),
{
    if events.len() > 0 {
        let before = events.drop_last();
        let last = events.last();
        law_session_runs(context_id, before);
        let session = JupyterReplSession::started(context_id).after_all(events);
        let earlier = JupyterReplSession::started(context_id).after_all(before);
        assert(last == events[events.len() - 1]);
        assert forall|i: int| 0 <= i < before.len() implies #[trigger] before[i] == events[i] by {}
        if session.running {
            assert forall|i: int| 0 <= i < events.len() implies !ends(#[trigger] events[i]) by {
                if i < before.len() {
                    assert(!ends(before[i]));
                }
            }
        } else if !earlier.running {
            let i = choose|i: int| 0 <= i < before.len() && ends(#[trigger] before[i]);
            assert(ends(events[i]));
        } else {
            assert(ends(events[events.len() - 1]));
        }
        if last is EventLoopDone {
            assert(dry_since(events, events.len() - 1));
        } else if !session.poll_worker {
            let i = choose|i: int| dry_since(before, i);
            assert forall|j: int| i < j < events.len() implies #[trigger] events[j] != (
            ReplEvent::Served { sent: true }) by {
                if j < before.len() {
                    assert(before[j] == events[j]);
                }
            }
            assert(dry_since(events, i));
        } else {
            assert forall|i: int| !dry_since(events, i) by {
                if dry_since(events, i) {
                    assert(i < before.len());
                    assert forall|j: int| i < j < before.len() implies #[trigger] before[j] != (
                    ReplEvent::Served { sent: true }) by {
                        assert(before[j] == events[j]);
                    }
                    assert(dry_since(before, i));
                }
            }
        }
    }
}

/// The kinds of responses.
#[derive(Debug, Clone, Copy, PartialEq, Eq, Structural)]
pub enum ResponseKind {
    GetProperties,
    Evaluate,
    GlobalLexicalScopeNames,
    EvaluateLineWithObjectWrapping,
    CallFunctionOnArgs,
    CallFunctionOn,
}

/// The kind of the response to a request, if it is answered.
pub open spec fn response_kind(msg: JupyterReplRequest) -> Option<ResponseKind> {
    match msg {
        JupyterReplRequest::GetProperties { .. } => Some(ResponseKind::GetProperties),
        JupyterReplRequest::Evaluate { .. } => Some(ResponseKind::Evaluate),
        JupyterReplRequest::GlobalLexicalScopeNames => Some(ResponseKind::GlobalLexicalScopeNames),
        JupyterReplRequest::EvaluateLineWithObjectWrapping { .. } => Some(
            ResponseKind::EvaluateLineWithObjectWrapping,
        ),
        JupyterReplRequest::CallFunctionOnArgs { .. } => Some(ResponseKind::CallFunctionOnArgs),
        JupyterReplRequest::CallFunctionOn { .. } => Some(ResponseKind::CallFunctionOn),
        JupyterReplRequest::CancelPendingTerminate => None,
    }
}

/// What came of an action.
pub enum ReplOutcome {
    /// The inspector answered; nothing stands for an answer that could not be read. The
    /// document is given, or why it cannot be written as one.
    Document(Option<Result<Value, String>>),
    /// The inspector gave the names of the global scope.
    Names(Vec<String>),
    /// A line was evaluated.
    Line(Result<TsEvaluateResponse, String>),
    /// A function was called on values in the isolate.
    Called(Result<CallFunctionOnResponse, String>),
}

/// The response of a kind that an outcome makes, if it can make one of that kind.
pub open spec fn response_of(kind: ResponseKind, outcome: ReplOutcome) -> Option<
    JupyterReplResponse,
> {
    match (kind, outcome) {
        (ResponseKind::GetProperties, ReplOutcome::Document(document)) => Some(
            JupyterReplResponse::GetProperties(
                match document {
                    Some(document) => Some(GetPropertiesResponse { document }),
                    None => None,
                },
            ),
        ),
        (ResponseKind::Evaluate, ReplOutcome::Document(document)) => Some(
            JupyterReplResponse::Evaluate(
                match document {
                    Some(document) => Some(EvaluateResponse { document }),
                    None => None,
                },
            ),
        ),
        (ResponseKind::CallFunctionOn, ReplOutcome::Document(document)) => Some(
            JupyterReplResponse::CallFunctionOn(
                match document {
                    Some(document) => Some(CallFunctionOnResponse { document }),
                    None => None,
                },
            ),
        ),
        (ResponseKind::GlobalLexicalScopeNames, ReplOutcome::Names(names)) => Some(
            JupyterReplResponse::GlobalLexicalScopeNames(GlobalLexicalScopeNamesResponse { names }),
        ),
        (ResponseKind::EvaluateLineWithObjectWrapping, ReplOutcome::Line(line)) => Some(
            JupyterReplResponse::EvaluateLineWithObjectWrapping(line),
        ),
        (ResponseKind::CallFunctionOnArgs, ReplOutcome::Called(called)) => Some(
            JupyterReplResponse::CallFunctionOnArgs(called),
        ),
        _ => None,
    }
}

/// The response of a kind that an outcome makes, if it can make one of that kind.
pub fn respond(kind: ResponseKind, outcome: ReplOutcome) -> (response: Option<JupyterReplResponse>)
    ensures
        response == response_of(kind, outcome),
        outcome matches ReplOutcome::Document(document) ==> {
            &&& kind == ResponseKind::GetProperties ==> {
                &&& response matches Some(JupyterReplResponse::GetProperties(found))
                &&& document matches Some(document) ==> found matches Some(found) && found.document
                    == document
                &&& document is None ==> found is None
            }
            &&& kind == ResponseKind::Evaluate ==> {
                &&& response matches Some(JupyterReplResponse::Evaluate(found))
                &&& document matches Some(document) ==> found matches Some(found) && found.document
                    == document
                &&& document is None ==> found is None
            }
            &&& kind == ResponseKind::CallFunctionOn ==> {
                &&& response matches Some(JupyterReplResponse::CallFunctionOn(found))
                &&& document matches Some(document) ==> found matches Some(found) && found.document
                    == document
                &&& document is None ==> found is None
            }
        },
        outcome matches ReplOutcome::Names(names) ==> (kind == ResponseKind::GlobalLexicalScopeNames
            ==> {
            &&& response matches Some(JupyterReplResponse::GlobalLexicalScopeNames(scope))
            &&& scope.names == names
        }),
        outcome matches ReplOutcome::Line(line) ==> (kind
            == ResponseKind::EvaluateLineWithObjectWrapping ==> response == Some(
            JupyterReplResponse::EvaluateLineWithObjectWrapping(line),
        )),
        outcome matches ReplOutcome::Called(called) ==> (kind == ResponseKind::CallFunctionOnArgs
            ==> response == Some(JupyterReplResponse::CallFunctionOnArgs(called))),
{
    match (kind, outcome) {
        (ResponseKind::GetProperties, ReplOutcome::Document(document)) => Some(
            JupyterReplResponse::GetProperties(
                match document {
                    Some(document) => Some(GetPropertiesResponse { document }),
                    None => None,
                },
            ),
        ),
        (ResponseKind::Evaluate, ReplOutcome::Document(document)) => Some(
            JupyterReplResponse::Evaluate(
                match document {
                    Some(document) => Some(EvaluateResponse { document }),
                    None => None,
                },
            ),
        ),
        (ResponseKind::CallFunctionOn, ReplOutcome::Document(document)) => Some(
            JupyterReplResponse::CallFunctionOn(
                match document {
                    Some(document) => Some(CallFunctionOnResponse { document }),
                    None => None,
                },
            ),
        ),
        (ResponseKind::GlobalLexicalScopeNames, ReplOutcome::Names(names)) => Some(
            JupyterReplResponse::GlobalLexicalScopeNames(GlobalLexicalScopeNamesResponse { names }),
        ),
        (ResponseKind::EvaluateLineWithObjectWrapping, ReplOutcome::Line(line)) => Some(
            JupyterReplResponse::EvaluateLineWithObjectWrapping(line),
        ),
        (ResponseKind::CallFunctionOnArgs, ReplOutcome::Called(called)) => Some(
            JupyterReplResponse::CallFunctionOnArgs(called),
        ),
        _ => None,
    }
}

/// What a session does for each request: what it posts to the inspector, word for word, or
/// what it does in the isolate.
pub proof fn law_requests_are_served(
    session: JupyterReplSession,
    msg: JupyterReplRequest,
    action: ReplAction,
)
    requires
        session.serves(msg, action),
    ensures
        match msg {
            JupyterReplRequest::GetProperties { object_id } => {
                &&& action matches ReplAction::Post(CdpCall::GetProperties(args))
                &&& args.object_id == object_id
                &&& args.own_properties is None
                &&& args.accessor_properties_only is None
                &&& args.generate_preview is None
                &&& args.non_indexed_properties_only == Some(true)
            },
            JupyterReplRequest::Evaluate { expr } => {
                &&& action matches ReplAction::Post(CdpCall::Evaluate(args))
                &&& args.expression == expr
                &&& args.object_group is None
                &&& args.include_command_line_api is None
                &&& args.silent is None
                &&& args.context_id == Some(session.context_id)
                &&& args.return_by_value is None
                &&& args.generate_preview is None
                &&& args.user_gesture is None
                &&& args.await_promise is None
                &&& args.throw_on_side_effect == Some(true)
                &&& args.timeout == Some(200u64)
                &&& args.disable_breaks is None
                &&& args.repl_mode is None
                &&& args.allow_unsafe_eval_blocked_by_csp is None
                &&& args.unique_context_id is None
            },
            JupyterReplRequest::GlobalLexicalScopeNames => {
                &&& action matches ReplAction::Post(CdpCall::GlobalLexicalScopeNames(args))
                &&& args.execution_context_id == Some(session.context_id)
            },
            JupyterReplRequest::EvaluateLineWithObjectWrapping { line } => {
                &&& action matches ReplAction::EvaluateLine { line: run }
                &&& run == line
            },
            JupyterReplRequest::CallFunctionOnArgs { function_declaration, args } => {
                &&& action matches ReplAction::CallOnArgs {
                    function_declaration: function,
                    args: values,
                }
                &&& function == function_declaration
                &&& values == args
            },
            JupyterReplRequest::CallFunctionOn { arg0, arg1 } => {
                &&& action matches ReplAction::Post(CdpCall::CallFunctionOn(args))
                &&& args.function_declaration@
                    == "async function (execution_count, result) {
            await Deno[Deno.internal].jupyter.broadcastResult(execution_count, result);
          }"@
                &&& args.arguments@.len() == 2
                &&& args.arguments@[0] == arg0
                &&& args.arguments@[1] == arg1
                &&& args.execution_context_id == session.context_id
                &&& args.await_promise
            },
            JupyterReplRequest::CancelPendingTerminate => action is CancelTerminate,
        },
{
}

/// Each request is answered by a response of its own kind, but for the one that cancels a
/// termination, which is not answered.
pub proof fn law_kinds_of_responses(msg: JupyterReplRequest)
    ensures
        msg is GetProperties ==> response_kind(msg) == Some(ResponseKind::GetProperties),
        msg is Evaluate ==> response_kind(msg) == Some(ResponseKind::Evaluate),
        msg is GlobalLexicalScopeNames ==> response_kind(msg) == Some(
            ResponseKind::GlobalLexicalScopeNames,
        ),
        msg is EvaluateLineWithObjectWrapping ==> response_kind(msg) == Some(
            ResponseKind::EvaluateLineWithObjectWrapping,
        ),
        msg is CallFunctionOnArgs ==> response_kind(msg) == Some(ResponseKind::CallFunctionOnArgs),
        msg is CallFunctionOn ==> response_kind(msg) == Some(ResponseKind::CallFunctionOn),
        response_kind(msg) is None <==> msg is CancelPendingTerminate,
{
}

/// A response is of the kind that is asked for and carries the outcome unchanged.
pub proof fn law_responses_carry_outcomes(
    document: Result<Value, String>,
    names: Vec<String>,
    line: Result<TsEvaluateResponse, String>,
    called: Result<CallFunctionOnResponse, String>,
)
    ensures
        response_of(ResponseKind::GetProperties, ReplOutcome::Document(Some(document))) == Some(
            JupyterReplResponse::GetProperties(Some(GetPropertiesResponse { document })),
        ),
        response_of(ResponseKind::GetProperties, ReplOutcome::Document(None)) == Some(
            JupyterReplResponse::GetProperties(None),
        ),
        response_of(ResponseKind::Evaluate, ReplOutcome::Document(Some(document))) == Some(
            JupyterReplResponse::Evaluate(Some(EvaluateResponse { document })),
        ),
        response_of(ResponseKind::Evaluate, ReplOutcome::Document(None)) == Some(
            JupyterReplResponse::Evaluate(None),
        ),
        response_of(ResponseKind::CallFunctionOn, ReplOutcome::Document(Some(document))) == Some(
            JupyterReplResponse::CallFunctionOn(Some(CallFunctionOnResponse { document })),
        ),
        response_of(ResponseKind::CallFunctionOn, ReplOutcome::Document(None)) == Some(
            JupyterReplResponse::CallFunctionOn(None),
        ),
        response_of(ResponseKind::GlobalLexicalScopeNames, ReplOutcome::Names(names)) == Some(
            JupyterReplResponse::GlobalLexicalScopeNames(GlobalLexicalScopeNamesResponse { names }),
        ),
        response_of(ResponseKind::EvaluateLineWithObjectWrapping, ReplOutcome::Line(line)) == Some(
            JupyterReplResponse::EvaluateLineWithObjectWrapping(line),
        ),
        response_of(ResponseKind::CallFunctionOnArgs, ReplOutcome::Called(called)) == Some(
            JupyterReplResponse::CallFunctionOnArgs(called),
        ),
{
}

/// What an event does to a session: the end of the script side or of the responses ends it,
/// a served request has the event loop polled again, an event loop that ran dry is left
/// alone, and nothing else changes.
pub proof fn law_session_events(session: JupyterReplSession, event: ReplEvent)
    ensures
        session.after(event).context_id == session.context_id,
        session.after(ReplEvent::Closed).running == false,
        session.after(ReplEvent::Closed).poll_worker == session.poll_worker,
        session.after(ReplEvent::Served { sent: false }).running == false,
        session.after(ReplEvent::Served { sent: false }).poll_worker == session.poll_worker,
        session.after(ReplEvent::Served { sent: true }).running == session.running,
        session.after(ReplEvent::Served { sent: true }).poll_worker == true,
        session.after(ReplEvent::EventLoopDone).running == session.running,
        session.after(ReplEvent::EventLoopDone).poll_worker == false,
        ends(event) <==> event is Closed || event == (ReplEvent::Served { sent: false }),
{
}

/// An outcome that does not belong to a kind makes no response of that kind.
pub proof fn law_outcomes_belong_to_kinds(kind: ResponseKind, outcome: ReplOutcome)
    ensures
        response_of(kind, outcome) is Some <==> {
            ||| outcome is Document && (kind == ResponseKind::GetProperties || kind
                == ResponseKind::Evaluate || kind == ResponseKind::CallFunctionOn)
            ||| outcome is Names && kind == ResponseKind::GlobalLexicalScopeNames
            ||| outcome is Line && kind == ResponseKind::EvaluateLineWithObjectWrapping
            ||| outcome is Called && kind == ResponseKind::CallFunctionOnArgs
        },
{
}

} // verus!
