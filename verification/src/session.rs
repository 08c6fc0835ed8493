//! A session: one procedure of a backend, carried out action by action.
//!
//! A session holds a plan, the actions of the procedure in order. Whoever
//! drives it asks for the pending action, performs it, and reports the event;
//! the session decides what follows. The first failure ends the plan, with two
//! provisions: a plan that opens a file may carry a second plan to fall back on
//! when the file is not there, and a handle that the session itself opened is
//! closed before the failure is reported.

use vstd::prelude::*;
use crate::action::{Action, ActionView, Event, EventView};

verus! {

/// A session as contracts see it.
pub struct SessionView<E> {
    /// The actions to perform, in order.
    pub plan: Seq<ActionView>,
    /// The plan to follow instead when the first action reports that the file
    /// is not there. Empty: there is none.
    pub fallback: Seq<ActionView>,
    /// How many actions of the plan have succeeded.
    pub done: nat,
    /// False once the session has fallen back.
    pub existed: bool,
    /// Whether a handle that this session opened is open.
    pub holding: bool,
    /// What the last successful `ReadToEnd` read.
    pub bytes: Seq<u8>,
    /// The error of the action that failed, if one did.
    pub failure: Option<E>,
}

impl<E> SessionView<E> {
    /// The session that is about to start on `plan`.
    pub open spec fn start(plan: Seq<ActionView>, fallback: Seq<ActionView>) -> Self {
        SessionView {
            plan,
            fallback,
            done: 0,
            existed: true,
            holding: false,
            bytes: Seq::empty(),
            failure: None,
        }
    }

    /// The action that is to be performed next; `None` when the session is over.
    pub open spec fn pending(self) -> Option<ActionView> {
        if self.failure is Some {
            if self.holding {
                Some(ActionView::Close)
            } else {
                None
            }
        } else if self.done < self.plan.len() {
            Some(self.plan[self.done as int])
        } else {
            None
        }
    }

    /// The whole plan was carried out.
    pub open spec fn succeeded(self) -> bool {
        self.failure is None && self.done >= self.plan.len()
    }

    /// An action failed, and nothing is left to release.
    pub open spec fn failed(self) -> bool {
        self.failure is Some && !self.holding
    }

    /// Whether a failure that reports `not_found` makes the session fall back.
    pub open spec fn falls_back(self, not_found: bool) -> bool {
        not_found && self.done == 0 && self.fallback.len() > 0
    }

    /// The session after a success of its pending action, which is an action of the plan.
    pub open spec fn after_success(self, bytes: Seq<u8>) -> Self {
        let action = self.plan[self.done as int];
        SessionView {
            done: self.done + 1,
            holding: if action is Open {
                true
            } else if action is Close {
                false
            } else {
                self.holding
            },
            bytes: if action is ReadToEnd {
                bytes
            } else {
                self.bytes
            },
            ..self
        }
    }

    /// The session after a failure of its pending action, which is an action
    /// of the plan. A close that fails leaves nothing to release.
    pub open spec fn after_failure(self, not_found: bool, error: E) -> Self {
        if self.falls_back(not_found) {
            SessionView { plan: self.fallback, fallback: Seq::empty(), existed: false, ..self }
        } else {
            SessionView {
                failure: Some(error),
                holding: self.holding && !(self.plan[self.done as int] is Close),
                ..self
            }
        }
    }

    /// The session after `event` was reported of its pending action.
    pub open spec fn after(self, event: EventView<E>) -> Self {
        if self.pending() is None {
            self
        } else if self.failure is Some {
            SessionView { holding: false, ..self }
        } else {
            match event {
                EventView::Done { bytes } => self.after_success(bytes),
                EventView::Failed { not_found, error } => self.after_failure(not_found, error),
            }
        }
    }
}

/// What a session that succeeded hands back.
#[derive(Debug)]
pub struct Completion {
    /// False if the session had to fall back on creating the file.
    pub existed: bool,
    /// What the session read; empty if it read nothing.
    pub bytes: Vec<u8>,
}

/// One procedure of a backend in progress.
#[derive(Debug)]
pub struct Session<E> {
    plan: Vec<Action>,
    fallback: Vec<Action>,
    done: usize,
    existed: bool,
    holding: bool,
    bytes: Vec<u8>,
    failure: Option<E>,
}

impl<E> View for Session<E> {
    type V = SessionView<E>;

    closed spec fn view(&self) -> SessionView<E> {
        SessionView {
            plan: self.plan@.map_values(|a: Action| a@),
            fallback: self.fallback@.map_values(|a: Action| a@),
            done: self.done as nat,
            existed: self.existed,
            holding: self.holding,
            bytes: self.bytes@,
            failure: self.failure,
        }
    }
}

impl<E> Session<E> {
    /// Starts a session on `plan`, with `fallback` to follow instead if the
    /// first action reports that the file is not there.
    pub(crate) fn begin(plan: Vec<Action>, fallback: Vec<Action>) -> (res: Self)
        ensures
            res@ == SessionView::<E>::start(
                plan@.map_values(|a: Action| a@),
                fallback@.map_values(|a: Action| a@),
            ),
    {
        Session {
            plan,
            fallback,
            done: 0,
            existed: true,
            holding: false,
            bytes: Vec::new(),
            failure: None,
        }
    }

    /// The action to perform next, or `None` when the session is over.
    pub fn pending(&self) -> (res: Option<&Action>)
        ensures
            res is Some <==> self@.pending() is Some,
            res matches Some(action) ==> self@.pending() == Some(action@),
    {
        if self.failure.is_some() {
            if self.holding {
                Some(&Action::Close)
            } else {
                None
            }
        } else if self.done < self.plan.len() {
            Some(&self.plan[self.done])
        } else {
            None
        }
    }

    /// Takes in what came of the pending action. Without a pending action
    /// nothing changes.
    pub fn advance(&mut self, event: Event<E>)
        ensures
            final(self)@ == old(self)@.after(event@),
    {
        if self.failure.is_some() {
            self.holding = false;
        } else if self.done < self.plan.len() {
            match event {
                Event::Done { bytes } => {
                    match &self.plan[self.done] {
                        Action::Open { .. } => {
                            self.holding = true;
                        },
                        Action::Close => {
                            self.holding = false;
                        },
                        Action::ReadToEnd => {
                            self.bytes = bytes;
                        },
                        _ => {},
                    }
                    self.done = self.done + 1;
                },
                Event::Failed { not_found, error } => {
                    if not_found && self.done == 0 && self.fallback.len() > 0 {
                        let mut plan: Vec<Action> = Vec::new();
                        std::mem::swap(&mut plan, &mut self.fallback);
                        self.plan = plan;
                        self.existed = false;
                        assert(final(self)@.fallback =~= Seq::empty());
                    } else {
                        match &self.plan[self.done] {
                            Action::Close => {
                                self.holding = false;
                            },
                            _ => {},
                        }
                        self.failure = Some(error);
                    }
                },
            }
        }
    }

    /// Ends the session: `None` while an action is pending, else what the
    /// session came to.
    pub fn finish(self) -> (res: Option<Result<Completion, E>>)
        ensures
            match res {
                None => self@.pending() is Some,
                Some(Ok(completion)) => self@.succeeded() && completion.existed == self@.existed
                    && completion.bytes@ == self@.bytes,
                Some(Err(error)) => self@.failed() && self@.failure == Some(error),
            },
    {
        match self.failure {
            Some(error) => {
                if self.holding {
                    None
                } else {
                    Some(Err(error))
                }
            },
            None => {
                if self.done < self.plan.len() {
                    None
                } else {
                    Some(Ok(Completion { existed: self.existed, bytes: self.bytes }))
                }
            },
        }
    }
}

} // verus!
