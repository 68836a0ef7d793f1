//! Agents (`agent`, `send`, `await`, `agent-error`, `restart-agent`): the
//! state an agent's actions run against and the decisions around them.
//! Actions are queued in order and applied one at a time by a worker; the
//! worker calls the action's function and reports the result here.

use crate::value::Value;
use vstd::prelude::*;

verus! {

/// A queued action: the function and its extra arguments.
pub struct Action {
    pub func: Value,
    pub args: Vec<Value>,
}

/// An agent: its value, the error that stopped it (if any), the actions
/// sent and not yet done, and its id.
pub struct AgentState {
    pub(crate) value: Value,
    pub(crate) error: Option<Value>,
    pub(crate) queue: Vec<Action>,
    pub(crate) pending: u64,
    pub(crate) id: u64,
}

/// The error an action with too many arguments stops an agent with.
pub open spec fn arity_error_text() -> Seq<char> {
    "Function call failed: too many arguments"@
}

/// The error an action with too many arguments leaves.
pub open spec fn is_arity_error(e: Option<Value>) -> bool {
    e matches Some(Value::Str(s)) && s@ == arity_error_text()
}

/// An action's function can be called: with at most two extra arguments.
pub open spec fn callable_args(n: nat) -> bool {
    n <= 2
}

impl AgentState {
    /// The agent's value.
    pub closed spec fn value_view(&self) -> Value {
        self.value
    }

    /// The error that stopped the agent, if any.
    pub closed spec fn error_view(&self) -> Option<Value> {
        self.error
    }

    /// The queued actions, oldest first.
    pub closed spec fn queue_view(&self) -> Seq<Action> {
        self.queue@
    }

    /// The number of actions sent and not yet done.
    pub closed spec fn pending_view(&self) -> u64 {
        self.pending
    }

    /// The agent's id.
    pub closed spec fn id_view(&self) -> u64 {
        self.id
    }

    /// A new agent holding `initial`, with no error and nothing pending.
    pub fn new(initial: Value, id: u64) -> (r: Self)
        ensures
            r.value_view() == initial,
            r.error_view() is None,
            r.queue_view().len() == 0,
            r.pending_view() == 0,
            r.id_view() == id,
    {
        AgentState { value: initial, error: None, queue: Vec::new(), pending: 0, id }
    }

    /// The agent's value.
    pub fn deref(&self) -> (r: Value)
        ensures
            r == self.value_view(),
    {
        self.value.copy()
    }

    /// The agent's id.
    pub fn id(&self) -> (r: u64)
        ensures
            r == self.id_view(),
    {
        self.id
    }

    /// The error that stopped the agent, if any (`agent-error`).
    pub fn get_error(&self) -> (r: Option<Value>)
        ensures
            r == self.error_view(),
    {
        match &self.error {
            Some(e) => Some(e.copy()),
            None => None,
        }
    }

    /// Sends an action: refused (false) once the agent has an error;
    /// otherwise queued behind the others and counted as pending.
    pub fn send_action(&mut self, func: Value, args: Vec<Value>) -> (r: bool)
        requires
            old(self).pending_view() < u64::MAX,
        ensures
            final(self).value_view() == old(self).value_view(),
            final(self).error_view() == old(self).error_view(),
            final(self).id_view() == old(self).id_view(),
            r == (old(self).error_view() is None),
            r ==> final(self).queue_view() == old(self).queue_view().push(Action { func, args })
                && final(self).pending_view() == old(self).pending_view() + 1,
            !r ==> final(self).queue_view() == old(self).queue_view() && final(self).pending_view()
                == old(self).pending_view(),
    {
        if self.error.is_some() {
            return false;
        }
        self.pending = self.pending + 1;
        self.queue.push(Action { func, args });
        true
    }

    /// The next action for the worker, taken off the queue.
    pub fn next_action(&mut self) -> (r: Option<Action>)
        ensures
            final(self).value_view() == old(self).value_view(),
            final(self).error_view() == old(self).error_view(),
            final(self).pending_view() == old(self).pending_view(),
            final(self).id_view() == old(self).id_view(),
            old(self).queue_view().len() == 0 ==> r is None && final(self).queue_view() == old(self).queue_view(),
            old(self).queue_view().len() > 0 ==> r == Some(old(self).queue_view()[0]) && final(self).queue_view()
                == old(self).queue_view().drop_first(),
    {
        if self.queue.len() == 0 {
            return None;
        }
        let a = self.queue.remove(0);
        proof {
            assert(self.queue@ =~= old(self).queue@.drop_first());
        }
        Some(a)
    }

    /// Finishes an action taken from the queue. A stopped agent skips it;
    /// an action with more than two arguments stops the agent with an
    /// error and keeps its value; otherwise `result`, the function's value,
    /// becomes the agent's value. The action is no longer pending.
    pub fn complete_action(&mut self, action: &Action, result: Value)
        requires
            old(self).pending_view() > 0,
        ensures
            final(self).pending_view() == old(self).pending_view() - 1,
            final(self).queue_view() == old(self).queue_view(),
            final(self).id_view() == old(self).id_view(),
            old(self).error_view() is Some ==> final(self).value_view() == old(self).value_view()
                && final(self).error_view() == old(self).error_view(),
            old(self).error_view() is None && !callable_args(action.args@.len()) ==> final(self).value_view()
                == old(self).value_view() && is_arity_error(final(self).error_view()),
            old(self).error_view() is None && callable_args(action.args@.len()) ==> final(self).value_view() == result
                && final(self).error_view() is None,
    {
        if self.error.is_none() {
            if action.args.len() > 2 {
                self.error = Some(Value::Str(crate::text::string_from("Function call failed: too many arguments")));
            } else {
                self.value = result;
            }
        }
        self.pending = self.pending - 1;
    }

    /// `restart-agent`: clears the error and sets the value.
    pub fn restart(&mut self, new_value: Value)
        ensures
            final(self).value_view() == new_value,
            final(self).error_view() is None,
            final(self).queue_view() == old(self).queue_view(),
            final(self).pending_view() == old(self).pending_view(),
            final(self).id_view() == old(self).id_view(),
    {
        self.error = None;
        self.value = new_value;
    }

    /// Whether every action sent has been done (`await` may return).
    pub fn is_idle(&self) -> (r: bool)
        ensures
            r == (self.pending_view() == 0),
    {
        self.pending == 0
    }
}

} // verus!
