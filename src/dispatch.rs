//! The dispatcher: the events of a request are handled one after the other
//! and their actions are gathered in order; a failing event yields one error
//! action and the others go on.

use vstd::prelude::*;
use crate::path::path_view;
use crate::session::{log_view, Action, ActionKey, ActionView, RawEvent, UiResponse};
use serde_json::Value;
use vstd::string::StringExecFns;

verus! {

/// What `serde_json` makes of a text: a JSON string holding it.
pub uninterp spec fn json_string_of(text: Seq<char>) -> Value;

/// Relies on serde_json::Value::String: the JSON string with this text.
#[verifier::external_body]
fn json_string(text: String) -> (r: Value)
    ensures
        r == json_string_of(text@),
{
    Value::String(text)
}

/// The path of the action that reports an error to the renderer.
pub open spec fn root_error_path() -> Seq<Seq<char>> {
    seq!["root_error"@]
}

/// The error action that carries `message`.
pub open spec fn error_view(message: Seq<char>) -> ActionView<Value> {
    ActionView { path: root_error_path(), debug_symbol: None, data: json_string_of(message) }
}

/// The actions that one handled event contributes: its whole log, or one
/// error action.
pub open spec fn outcome_view(outcome: Result<Seq<ActionView<Value>>, Seq<char>>) -> Seq<
    ActionView<Value>,
> {
    match outcome {
        Ok(actions) => actions,
        Err(message) => seq![error_view(message)],
    }
}

/// The response to a request whose events were handled with these outcomes,
/// in order.
pub open spec fn response_of(outcomes: Seq<Result<Seq<ActionView<Value>>, Seq<char>>>) -> Seq<
    ActionView<Value>,
>
    decreases outcomes.len(),
{
    if outcomes.len() == 0 {
        Seq::empty()
    } else {
        response_of(outcomes.drop_last()) + outcome_view(outcomes.last())
    }
}

/// How the outcome of a handler is seen.
pub open spec fn handled_view(outcome: Result<UiResponse, String>) -> Result<
    Seq<ActionView<Value>>,
    Seq<char>,
> {
    match outcome {
        Ok(response) => Ok(response.actions_view()),
        Err(message) => Err(message@),
    }
}

/// A request that parsed: the session it belongs to and its events.
pub struct RawRequest {
    session_id: String,
    events: Vec<RawEvent>,
}

/// A request body that did not parse.
pub struct RequestError {
    pub serde_error: String,
}

/// The text that reports a request body that did not parse.
pub open spec fn request_error_text(serde_error: Seq<char>) -> Seq<char> {
    "Invalid request body. "@ + serde_error
}

impl RequestError {
    /// The text of the error.
    pub fn message(&self) -> (r: String)
        ensures
            r@ == request_error_text(self.serde_error@),
    {
        String::from_str("Invalid request body. ").concat(self.serde_error.as_str())
    }
}

impl RawRequest {
    /// The session of the request.
    pub closed spec fn session_view(&self) -> Seq<char> {
        self.session_id@
    }

    /// The events of the request, in order.
    pub closed spec fn events_view(&self) -> Seq<RawEvent> {
        self.events@
    }

    /// A request of session `session_id` with `events`.
    pub fn new(session_id: String, events: Vec<RawEvent>) -> (r: RawRequest)
        ensures
            r.session_view() == session_id@,
            r.events_view() == events@,
    {
        RawRequest { session_id, events }
    }

    /// Hands out the session and the events.
    pub fn into_parts(self) -> (r: (String, Vec<RawEvent>))
        ensures
            r.0@ == self.session_view(),
            r.1@ == self.events_view(),
    {
        (self.session_id, self.events)
    }
}

/// The error action that carries `message`.
pub fn error_action(message: String) -> (r: Action<Value>)
    ensures
        r@ == error_view(message@),
{
    let path = vec![String::from_str("root_error")];
    assert(path_view(path@) =~= root_error_path());
    let key = ActionKey::<Value>::at_path(path);
    Action::new(key, json_string(message))
}


/// The whole response to a request body that did not parse: one error action.
pub fn request_failure(error: &RequestError) -> (r: Vec<Action<Value>>)
    ensures
        log_view(r@) == seq![error_view(request_error_text(error.serde_error@))],
{
    let r = vec![error_action(error.message())];
    assert(log_view(r@) =~= seq![error_view(request_error_text(error.serde_error@))]);
    r
}

/// The response to one request while its events are handled in turn.
pub struct Dispatch {
    actions: Vec<Action<Value>>,
}

impl Dispatch {
    /// The actions gathered so far.
    pub closed spec fn actions_view(&self) -> Seq<ActionView<Value>> {
        log_view(self.actions@)
    }

    /// A response with no action yet.
    pub fn new() -> (r: Dispatch)
        ensures
            r.actions_view() == Seq::<ActionView<Value>>::empty(),
    {
        let r = Dispatch { actions: Vec::new() };
        assert(r.actions_view() =~= Seq::<ActionView<Value>>::empty());
        r
    }

    /// Adds what the next event produced: the handler's whole log when it
    /// succeeded, else one error action with the handler's message.
    pub fn record(&mut self, outcome: Result<UiResponse, String>)
        ensures
            final(self).actions_view() == old(self).actions_view() + outcome_view(
                handled_view(outcome),
            ),
    {
        match outcome {
            Ok(response) => {
                let mut actions = response.into_actions();
                let ghost added = actions@;
                self.actions.append(&mut actions);
                assert(log_view(self.actions@) =~= log_view(old(self).actions@) + log_view(added));
            },
            Err(message) => {
                let ghost text = message@;
                let action = error_action(message);
                self.actions.push(action);
                assert(log_view(self.actions@) =~= log_view(old(self).actions@) + seq![
                    error_view(text),
                ]);
            },
        }
    }

    /// The gathered actions, in event order and, within an event, in the
    /// order they were emitted.
    pub fn into_actions(self) -> (r: Vec<Action<Value>>)
        ensures
            log_view(r@) == self.actions_view(),
    {
        self.actions
    }
}

/// The response to a request whose events were handled with `outcomes`,
/// in order.
pub fn dispatch_outcomes(outcomes: Vec<Result<UiResponse, String>>) -> (r: Vec<Action<Value>>)
    ensures
        log_view(r@) == response_of(outcomes@.map_values(|o: Result<UiResponse, String>| handled_view(o))),
{
    let ghost all = outcomes@.map_values(|o: Result<UiResponse, String>| handled_view(o));
    let mut rest = outcomes;
    let mut dispatch = Dispatch::new();
    let ghost done: int = 0;
    while rest.len() > 0
        invariant
            0 <= done <= all.len(),
            rest@.len() + done == all.len(),
            rest@.map_values(|o: Result<UiResponse, String>| handled_view(o)) == all.skip(done),
            dispatch.actions_view() == response_of(all.take(done)),
        decreases rest@.len(),
    {
        let ghost prev = rest@;
        let outcome = rest.remove(0);
        proof {
            assert(prev.map_values(|o: Result<UiResponse, String>| handled_view(o))[0] == all.skip(
                done,
            )[0]);
            assert(handled_view(outcome) == all[done]);
            assert(all.take(done + 1).drop_last() =~= all.take(done));
        }
        dispatch.record(outcome);
        proof {
            assert forall|j: int| 0 <= j < rest@.len() implies #[trigger] rest@[j] == prev[j + 1] by {}
            assert forall|j: int| 0 <= j < rest@.len() implies handled_view(#[trigger] rest@[j])
                == all[done + 1 + j] by {
                assert(prev.map_values(|o: Result<UiResponse, String>| handled_view(o))[j + 1]
                    == all.skip(done)[j + 1]);
            }
            done = done + 1;
            assert(rest@.map_values(|o: Result<UiResponse, String>| handled_view(o)) =~= all.skip(
                done,
            ));
        }
    }
    assert(all.take(done) =~= all);
    dispatch.into_actions()
}

/// Handling events one after another concatenates their responses: the
/// actions of earlier events come first, and no event's outcome changes the
/// actions that another event contributes.
pub proof fn lemma_response_concat(
    first: Seq<Result<Seq<ActionView<Value>>, Seq<char>>>,
    second: Seq<Result<Seq<ActionView<Value>>, Seq<char>>>,
)
    ensures
        response_of(first + second) == response_of(first) + response_of(second),
    decreases second.len(),
{
    if second.len() == 0 {
        assert(first + second =~= first);
        assert(response_of(second) =~= Seq::<ActionView<Value>>::empty());
        assert(response_of(first) + response_of(second) =~= response_of(first));
    } else {
        lemma_response_concat(first, second.drop_last());
        assert((first + second).drop_last() =~= first + second.drop_last());
        assert(response_of(first) + response_of(second) =~= response_of(first) + response_of(
            second.drop_last(),
        ) + outcome_view(second.last()));
    }
}

/// A failing event contributes exactly one error action, at its own place
/// in the response, and the events around it keep all their actions.
pub proof fn lemma_failure_isolated(
    before: Seq<Result<Seq<ActionView<Value>>, Seq<char>>>,
    message: Seq<char>,
    after: Seq<Result<Seq<ActionView<Value>>, Seq<char>>>,
)
    ensures
        response_of(before + seq![Err(message)] + after) == response_of(before) + seq![
            error_view(message),
        ] + response_of(after),
{
    let one = seq![Err::<Seq<ActionView<Value>>, Seq<char>>(message)];
    lemma_response_concat(before + one, after);
    lemma_response_concat(before, one);
    assert(one.drop_last() =~= Seq::<Result<Seq<ActionView<Value>>, Seq<char>>>::empty());
    assert(response_of(one.drop_last()) == Seq::<ActionView<Value>>::empty());
    assert(response_of(one) =~= seq![error_view(message)]);
}

} // verus!
