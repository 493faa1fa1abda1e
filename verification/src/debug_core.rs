//! The assembled core, as the session layer drives it: one delivery
//! point for adapter events, the request results handed back, and the
//! two user commands. Events arrive one at a time, in arrival order;
//! output events feed the console, stop and resume events invalidate the
//! variable tree. Once termination is observed the core accepts no
//! further mutation: every later event, response and command leaves it
//! unchanged.

use vstd::prelude::*;

use crate::console::{
    step, Console, ConsoleModel, LineModel, NotificationModel, OutputNotification, TranscriptLine,
};
use crate::evaluate::{
    assignment_target, eval_outcome, spec_eval_response, EvalDisposition, EvaluationCoordinator,
    PendingModel,
};
use crate::protocol::{AdapterRequest, EvaluateContext, RequestModel};
use crate::variables::{
    entries_spec, scopes_outcome, spec_invalidate_thread, spec_scopes_response, spec_toggle,
    variables_requests, vars_outcome, AdapterError, ExpansionKey, ManagerModel, Scope, TreeError,
    Variable, VariableTreeEntry, VariableTreeManager,
};

verus! {

/// One adapter event, as the session layer delivers it.
pub enum DebugEvent {
    /// An output notification for the console transcript.
    Output(OutputNotification),
    /// A thread halted; its stack becomes inspectable.
    Stopped { thread_id: u64 },
    /// A thread resumed; everything fetched of it is stale.
    Continued { thread_id: u64 },
    /// The adapter connection ended.
    Terminated,
}

/// Mathematical content of a [`DebugEvent`].
#[verifier::ext_equal]
pub enum EventModel {
    Output(NotificationModel),
    Stopped { thread_id: u64 },
    Continued { thread_id: u64 },
    Terminated,
}

impl View for DebugEvent {
    type V = EventModel;

    open spec fn view(&self) -> EventModel {
        match self {
            DebugEvent::Output(n) => EventModel::Output(n@),
            DebugEvent::Stopped { thread_id } => EventModel::Stopped { thread_id: *thread_id },
            DebugEvent::Continued { thread_id } => EventModel::Continued { thread_id: *thread_id },
            DebugEvent::Terminated => EventModel::Terminated,
        }
    }
}

/// State of the assembled core.
#[verifier::ext_equal]
pub struct CoreModel {
    pub console: ConsoleModel,
    pub variables: ManagerModel,
    pub pending: Option<PendingModel>,
    pub terminated: bool,
}

/// What one event does to the core, and the request it asks for. After
/// termination every event is dropped whole. An output event steps the
/// console, a malformed close included, which is dropped there; a stop
/// invalidates the stopped thread and asks for its stack; a resume
/// invalidates alike and asks for nothing; termination latches.
pub open spec fn spec_handle_event(s: CoreModel, e: EventModel) -> (CoreModel, Option<
    RequestModel,
>) {
    if s.terminated {
        (s, None)
    } else {
        match e {
            EventModel::Output(n) => (
                CoreModel {
                    console: step(s.console, n),
                    variables: s.variables,
                    pending: s.pending,
                    terminated: s.terminated,
                },
                None,
            ),
            EventModel::Stopped { thread_id } => (
                CoreModel {
                    console: s.console,
                    variables: spec_invalidate_thread(s.variables, thread_id),
                    pending: s.pending,
                    terminated: s.terminated,
                },
                Some(RequestModel::StackTrace { thread_id }),
            ),
            EventModel::Continued { thread_id } => (
                CoreModel {
                    console: s.console,
                    variables: spec_invalidate_thread(s.variables, thread_id),
                    pending: s.pending,
                    terminated: s.terminated,
                },
                None,
            ),
            EventModel::Terminated => (
                CoreModel {
                    console: s.console,
                    variables: s.variables,
                    pending: s.pending,
                    terminated: true,
                },
                None,
            ),
        }
    }
}

/// The assembled core: the console, the variable tree manager, the
/// evaluation coordinator, and the termination latch.
pub struct DebugCore {
    console: Console,
    variables: VariableTreeManager,
    evaluator: EvaluationCoordinator,
    terminated: bool,
}

impl View for DebugCore {
    type V = CoreModel;

    closed spec fn view(&self) -> CoreModel {
        CoreModel {
            console: self.console@,
            variables: self.variables@,
            pending: self.evaluator@.pending,
            terminated: self.terminated,
        }
    }
}

impl DebugCore {
    /// A fresh core: empty transcript, nothing loaded, no evaluation in
    /// flight, not terminated.
    pub fn new() -> (c: DebugCore)
        ensures
            c@.console.stack == Seq::<crate::console::GroupFrame>::empty(),
            c@.console.lines == Seq::<LineModel>::empty(),
            c@.console.wf(),
            c@.variables.generation == 0,
            c@.variables.frames == Seq::<crate::variables::FrameModel>::empty(),
            c@.variables.expansions == Seq::<crate::variables::ExpansionSlotModel>::empty(),
            c@.variables.cache == Seq::<crate::variables::CacheSlotModel>::empty(),
            c@.variables.in_flight == Seq::<u64>::empty(),
            c@.pending is None,
            !c@.terminated,
    {
        DebugCore {
            console: Console::new(),
            variables: VariableTreeManager::new(),
            evaluator: EvaluationCoordinator::new(),
            terminated: false,
        }
    }

    /// Consumes one adapter event, as [`spec_handle_event`] describes,
    /// and returns the request it asks for, if any.
    pub fn handle_event(&mut self, e: DebugEvent) -> (r: Option<AdapterRequest>)
        requires
            old(self)@.console.wf(),
            old(self)@.variables.generation + 1 <= u64::MAX,
        ensures
            final(self)@ == spec_handle_event(old(self)@, e@).0,
            final(self)@.console.wf(),
            match r {
                Some(q) => spec_handle_event(old(self)@, e@).1 == Some(q@),
                None => spec_handle_event(old(self)@, e@).1 is None,
            },
    {
        if self.terminated {
            return None;
        }
        match e {
            DebugEvent::Output(n) => {
                let _ = self.console.handle_output(n);
                None
            },
            DebugEvent::Stopped { thread_id } => {
                let q = self.variables.on_stopped(thread_id);
                Some(q)
            },
            DebugEvent::Continued { thread_id } => {
                self.variables.on_continued(thread_id);
                None
            },
            DebugEvent::Terminated => {
                self.terminated = true;
                None
            },
        }
    }

    /// The result of a scopes request. After termination it is dropped;
    /// otherwise it is stored as the manager says, and the returned
    /// requests fetch the scope containers not yet cached or in flight.
    pub fn on_scopes_response(
        &mut self,
        generation: u64,
        thread_id: u64,
        frame_id: u64,
        result: Result<Vec<Scope>, AdapterError>,
    ) -> (reqs: Vec<AdapterRequest>)
        ensures
            old(self)@.terminated ==> final(self)@ == old(self)@ && reqs@.len() == 0,
            !old(self)@.terminated ==> {
                let t = spec_scopes_response(
                    old(self)@.variables,
                    generation as nat,
                    thread_id,
                    frame_id,
                    scopes_outcome(result),
                );
                &&& final(self)@ == (CoreModel {
                    console: old(self)@.console,
                    variables: t.0,
                    pending: old(self)@.pending,
                    terminated: false,
                })
                &&& reqs.deep_view() == variables_requests(t.1, generation)
            },
    {
        if self.terminated {
            return Vec::new();
        }
        self.variables.on_scopes_response(generation, thread_id, frame_id, result)
    }

    /// The result of a variables request. After termination, or with a
    /// superseded generation, it is dropped and reported stale;
    /// otherwise the container's slot comes to hold it.
    pub fn on_variables_response(
        &mut self,
        generation: u64,
        container_ref: u64,
        result: Result<Vec<Variable>, AdapterError>,
    ) -> (r: Result<(), TreeError>)
        ensures
            old(self)@.terminated ==> final(self)@ == old(self)@ && r == Err::<(), TreeError>(
                TreeError::StaleContainerReference,
            ),
            !old(self)@.terminated ==> {
                &&& final(self)@ == (CoreModel {
                    console: old(self)@.console,
                    variables: crate::variables::spec_variables_response(
                        old(self)@.variables,
                        generation as nat,
                        container_ref,
                        vars_outcome(result),
                    ),
                    pending: old(self)@.pending,
                    terminated: false,
                })
                &&& (r is Ok <==> generation as nat == old(self)@.variables.generation)
            },
    {
        if self.terminated {
            return Err(TreeError::StaleContainerReference);
        }
        self.variables.on_variables_response(generation, container_ref, result)
    }

    /// The result of an evaluate request: routed to the console and, for
    /// an assignment, to the cached row, unless termination was observed
    /// first, in which case it is dropped with nothing pending.
    pub fn on_evaluate_response(&mut self, result: Result<String, String>) -> (r: EvalDisposition)
        ensures
            old(self)@.terminated ==> final(self)@ == old(self)@ && r
                == EvalDisposition::NoPending,
            !old(self)@.terminated ==> {
                let t = spec_eval_response(
                    old(self)@.pending,
                    old(self)@.console,
                    old(self)@.variables,
                    eval_outcome(result),
                );
                &&& final(self)@ == (CoreModel {
                    console: t.0,
                    variables: t.1,
                    pending: None,
                    terminated: false,
                })
                &&& r == t.2
            },
    {
        if self.terminated {
            return EvalDisposition::NoPending;
        }
        self.evaluator.on_evaluate_response(&mut self.console, &mut self.variables, result)
    }

    /// The user toggled a row. Dropped after termination; otherwise the
    /// row's expansion flips and a fetch is asked for exactly when the
    /// manager says one is due.
    pub fn toggle_entry(&mut self, key: ExpansionKey, container_ref: u64) -> (r: Option<
        AdapterRequest,
    >)
        ensures
            old(self)@.terminated ==> final(self)@ == old(self)@ && r is None,
            !old(self)@.terminated ==> {
                let t = spec_toggle(old(self)@.variables, key@, container_ref);
                &&& final(self)@ == (CoreModel {
                    console: old(self)@.console,
                    variables: t.0,
                    pending: old(self)@.pending,
                    terminated: false,
                })
                &&& (r is Some <==> t.1 is Some)
                &&& match r {
                    Some(q) => q@ == (RequestModel::Variables {
                        container_ref,
                        generation: old(self)@.variables.generation as u64,
                    }),
                    None => true,
                }
            },
    {
        if self.terminated {
            return None;
        }
        self.variables.toggle_entry(key, container_ref)
    }

    /// The user asked for an evaluation. After termination nothing is
    /// asked; otherwise the evaluate request is returned, its context
    /// chosen by the expression's form, and its routing remembered.
    pub fn evaluate(&mut self, expression: String, thread_id: u64, frame_id: u64) -> (r: Option<
        AdapterRequest,
    >)
        ensures
            old(self)@.terminated ==> final(self)@ == old(self)@ && r is None,
            !old(self)@.terminated ==> {
                &&& final(self)@ == (CoreModel {
                    console: old(self)@.console,
                    variables: old(self)@.variables,
                    pending: Some(
                        (PendingModel {
                            target: assignment_target(expression@),
                            thread_id,
                            frame_id,
                        }),
                    ),
                    terminated: false,
                })
                &&& match r {
                    Some(q) => q@ == (RequestModel::Evaluate {
                        expression: expression@,
                        frame_id,
                        context: if assignment_target(expression@) is Some {
                            EvaluateContext::Variables
                        } else {
                            EvaluateContext::Repl
                        },
                    }),
                    None => false,
                }
            },
    {
        if self.terminated {
            return None;
        }
        Some(self.evaluator.evaluate(expression, thread_id, frame_id))
    }

    /// Selecting a frame for display: asks for its scopes exactly when
    /// they are not loaded, and for nothing after termination.
    pub fn select_frame(&self, thread_id: u64, frame_id: u64) -> (r: Option<AdapterRequest>)
        ensures
            self@.terminated ==> r is None,
            !self@.terminated ==> {
                &&& r is None <==> crate::variables::has_frame(
                    self@.variables.frames,
                    thread_id,
                    frame_id,
                )
                &&& match r {
                    Some(q) => q@ == (RequestModel::Scopes {
                        thread_id,
                        frame_id,
                        generation: self@.variables.generation as u64,
                    }),
                    None => true,
                }
            },
    {
        if self.terminated {
            return None;
        }
        self.variables.select_frame(thread_id, frame_id)
    }

    /// The transcript produced so far, in production order.
    pub fn transcript(&self) -> (r: &Vec<TranscriptLine>)
        ensures
            r.deep_view() == self@.console.lines,
    {
        self.console.transcript()
    }

    /// The flattened display list of one frame.
    pub fn entries(&self, thread_id: u64, frame_id: u64) -> (r: Vec<VariableTreeEntry>)
        ensures
            r.deep_view() == entries_spec(self@.variables, thread_id, frame_id),
    {
        self.variables.entries(thread_id, frame_id)
    }
}

} // verus!
