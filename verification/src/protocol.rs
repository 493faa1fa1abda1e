//! Typed requests the core asks its session layer to issue.
//!
//! The session layer owns the adapter connection. The core never performs
//! a request itself: an operation that needs one returns a value of
//! [`AdapterRequest`], the session performs it, and hands the plain result
//! back to the core handler it belongs to, echoing the generation the
//! request was made under so that results of a superseded stop can be
//! recognized and discarded.

use vstd::prelude::*;

verus! {

/// Which adapter context an evaluation request names: an assignment form
/// patches a variable, anything else is a plain read-eval-print entry.
#[derive(Clone, Copy, Debug, PartialEq, Eq, Structural)]
pub enum EvaluateContext {
    Variables,
    Repl,
}

/// A request the core wants issued to the adapter.
pub enum AdapterRequest {
    /// Fetch the stack of the thread that just stopped.
    StackTrace { thread_id: u64 },
    /// Fetch the scopes of one stack frame.
    Scopes { thread_id: u64, frame_id: u64, generation: u64 },
    /// Fetch the children of one container reference.
    Variables { container_ref: u64, generation: u64 },
    /// Evaluate a user expression against one stack frame.
    Evaluate { expression: String, frame_id: u64, context: EvaluateContext },
}

/// Mathematical content of an [`AdapterRequest`].
#[verifier::ext_equal]
pub enum RequestModel {
    StackTrace { thread_id: u64 },
    Scopes { thread_id: u64, frame_id: u64, generation: u64 },
    Variables { container_ref: u64, generation: u64 },
    Evaluate { expression: Seq<char>, frame_id: u64, context: EvaluateContext },
}

impl View for AdapterRequest {
    type V = RequestModel;

    open spec fn view(&self) -> RequestModel {
        match self {
            AdapterRequest::StackTrace { thread_id } => RequestModel::StackTrace {
                thread_id: *thread_id,
            },
            AdapterRequest::Scopes { thread_id, frame_id, generation } => RequestModel::Scopes {
                thread_id: *thread_id,
                frame_id: *frame_id,
                generation: *generation,
            },
            AdapterRequest::Variables { container_ref, generation } => RequestModel::Variables {
                container_ref: *container_ref,
                generation: *generation,
            },
            AdapterRequest::Evaluate { expression, frame_id, context } => RequestModel::Evaluate {
                expression: expression@,
                frame_id: *frame_id,
                context: *context,
            },
        }
    }
}

impl DeepView for AdapterRequest {
    type V = RequestModel;

    open spec fn deep_view(&self) -> RequestModel {
        self.view()
    }
}

} // verus!
