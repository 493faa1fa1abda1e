//! Evaluation coordinator.
//!
//! Sends a user expression to the adapter and routes the result: an
//! expression of the assignment form `$name = rest` patches the cached
//! variable of that name in place, any other result is appended to the
//! console transcript. The assignment form is purely lexical — a leading
//! `$`, an identifier, optional spaces, then `=` — not an adapter
//! feature.

use vstd::prelude::*;

use crate::console::Console;
use crate::console::LineModel;
use crate::protocol::{AdapterRequest, EvaluateContext, RequestModel};
use crate::variables::{spec_patch_topmost, ManagerModel, VariableTreeManager};

verus! {

/// Whether the character may stand in an assignment target's name: an
/// ASCII letter, a digit, or an underscore.
pub open spec fn is_ident_char(c: char) -> bool {
    ('a' <= c && c <= 'z') || ('A' <= c && c <= 'Z') || ('0' <= c && c <= '9') || c == '_'
}

fn is_ident_char_exec(c: char) -> (r: bool)
    ensures
        r == is_ident_char(c),
{
    ('a' <= c && c <= 'z') || ('A' <= c && c <= 'Z') || ('0' <= c && c <= '9') || c == '_'
}

/// First index at or after `i` that does not hold an identifier
/// character; the text's length when the run reaches its end.
pub open spec fn ident_end(s: Seq<char>, i: int) -> int
    decreases s.len() - i,
{
    if i < 0 || i >= s.len() || !is_ident_char(s[i]) {
        i
    } else {
        ident_end(s, i + 1)
    }
}

/// First index at or after `i` that does not hold a space; the text's
/// length when the run reaches its end.
pub open spec fn space_end(s: Seq<char>, i: int) -> int
    decreases s.len() - i,
{
    if i < 0 || i >= s.len() || s[i] != ' ' {
        i
    } else {
        space_end(s, i + 1)
    }
}

/// The name an assignment-form expression addresses: after a leading
/// `$`, a nonempty identifier, then optional spaces, then `=`. Any other
/// shape addresses nothing.
pub open spec fn assignment_target(s: Seq<char>) -> Option<Seq<char>> {
    if s.len() > 0 && s[0] == '$' {
        let ie = ident_end(s, 1);
        if ie > 1 {
            let se = space_end(s, ie);
            if se < s.len() && s[se] == '=' {
                Some(s.subrange(1, ie))
            } else {
                None
            }
        } else {
            None
        }
    } else {
        None
    }
}

/// The assignment target of the expression, or nothing when the
/// expression is not of the assignment form.
pub fn parse_assignment_target(expr: &str) -> (r: Option<String>)
    ensures
        match r {
            Some(name) => assignment_target(expr@) == Some(name@),
            None => assignment_target(expr@) is None,
        },
{
    let n = expr.unicode_len();
    if n == 0 {
        return None;
    }
    if expr.get_char(0) != '$' {
        return None;
    }
    let mut i: usize = 1;
    while i < n
        invariant_except_break
            1 <= i <= n,
            n == expr@.len(),
            ident_end(expr@, 1) == ident_end(expr@, i as int),
        ensures
            1 <= i <= n,
            n == expr@.len(),
            ident_end(expr@, 1) == i,
        decreases n - i,
    {
        if !is_ident_char_exec(expr.get_char(i)) {
            proof {
                assert(ident_end(expr@, i as int) == i);
            }
            break;
        }
        proof {
            assert(ident_end(expr@, i as int) == ident_end(expr@, i + 1));
        }
        i = i + 1;
    }
    let ie = i;
    if ie == 1 {
        return None;
    }
    while i < n
        invariant_except_break
            ie <= i <= n,
            n == expr@.len(),
            space_end(expr@, ie as int) == space_end(expr@, i as int),
        ensures
            ie <= i <= n,
            n == expr@.len(),
            space_end(expr@, ie as int) == i,
        decreases n - i,
    {
        if expr.get_char(i) != ' ' {
            proof {
                assert(space_end(expr@, i as int) == i);
            }
            break;
        }
        proof {
            assert(space_end(expr@, i as int) == space_end(expr@, i + 1));
        }
        i = i + 1;
    }
    if i == n {
        return None;
    }
    if expr.get_char(i) != '=' {
        return None;
    }
    let name = expr.substring_char(1, ie).to_owned();
    Some(name)
}

/// What the coordinator did with an evaluation response.
#[derive(Clone, Copy, Debug, PartialEq, Eq, Structural)]
pub enum EvalDisposition {
    /// No evaluation was pending; the response was dropped whole.
    NoPending,
    /// The result line was appended; an assignment also patched its row.
    Routed,
    /// The result line was appended, but no cached row matched the
    /// assignment target; the stale value stands until the next refresh.
    TargetNotFound,
}

/// One evaluation in flight: the assignment target, if the expression had
/// one, and the frame it was evaluated against.
pub struct PendingEvaluation {
    pub target: Option<String>,
    pub thread_id: u64,
    pub frame_id: u64,
}

/// Mathematical content of a [`PendingEvaluation`].
#[verifier::ext_equal]
pub struct PendingModel {
    pub target: Option<Seq<char>>,
    pub thread_id: u64,
    pub frame_id: u64,
}

impl View for PendingEvaluation {
    type V = PendingModel;

    open spec fn view(&self) -> PendingModel {
        PendingModel {
            target: match self.target {
                Some(t) => Some(t@),
                None => None,
            },
            thread_id: self.thread_id,
            frame_id: self.frame_id,
        }
    }
}

/// The plain content of an evaluation result: the result text on
/// success, the error text on failure.
pub open spec fn eval_outcome(result: Result<String, String>) -> Result<Seq<char>, Seq<char>> {
    match result {
        Ok(t) => Ok(t@),
        Err(t) => Err(t@),
    }
}

/// What an evaluation response does to the console and the variable
/// tree. Any result, good or bad, appends exactly one transcript line at
/// depth zero with the result text. A successful assignment additionally
/// patches the first cached variable of the target's name under the
/// frame's topmost matching scope; no request is ever issued for it.
pub open spec fn spec_eval_response(
    pending: Option<PendingModel>,
    console: crate::console::ConsoleModel,
    m: ManagerModel,
    result: Result<Seq<char>, Seq<char>>,
) -> (crate::console::ConsoleModel, ManagerModel, EvalDisposition) {
    match pending {
        None => (console, m, EvalDisposition::NoPending),
        Some(p) => {
            let text = match result {
                Ok(t) => t,
                Err(t) => t,
            };
            let appended = crate::console::ConsoleModel {
                stack: console.stack,
                lines: console.lines.push(
                    LineModel { text, depth: 0, hidden_marker: false },
                ),
            };
            match result {
                Err(_) => (appended, m, EvalDisposition::Routed),
                Ok(t) => match p.target {
                    None => (appended, m, EvalDisposition::Routed),
                    Some(name) => {
                        let patched = spec_patch_topmost(m, p.thread_id, p.frame_id, name, t);
                        (
                            appended,
                            patched.0,
                            if patched.1 {
                                EvalDisposition::Routed
                            } else {
                                EvalDisposition::TargetNotFound
                            },
                        )
                    },
                },
            }
        },
    }
}

/// The evaluation coordinator: remembers the one evaluation in flight so
/// that its response can be routed.
pub struct EvaluationCoordinator {
    pending: Option<PendingEvaluation>,
}

/// Mathematical content of the coordinator.
#[verifier::ext_equal]
pub struct CoordinatorModel {
    pub pending: Option<PendingModel>,
}

impl View for EvaluationCoordinator {
    type V = CoordinatorModel;

    closed spec fn view(&self) -> CoordinatorModel {
        CoordinatorModel {
            pending: match self.pending {
                Some(p) => Some(p@),
                None => None,
            },
        }
    }
}

impl EvaluationCoordinator {
    /// A coordinator with no evaluation in flight.
    pub fn new() -> (c: EvaluationCoordinator)
        ensures
            c@.pending is None,
    {
        EvaluationCoordinator { pending: None }
    }

    /// Builds the evaluate request for the expression and remembers how
    /// its response is to be routed. An assignment-form expression runs
    /// under the adapter's variables context, anything else under the
    /// read-eval-print context; the expression is passed on unchanged
    /// either way.
    pub fn evaluate(&mut self, expression: String, thread_id: u64, frame_id: u64) -> (r:
        AdapterRequest)
        ensures
            r@ == (RequestModel::Evaluate {
                expression: expression@,
                frame_id,
                context: if assignment_target(expression@) is Some {
                    EvaluateContext::Variables
                } else {
                    EvaluateContext::Repl
                },
            }),
            final(self)@.pending == Some(
                (PendingModel { target: assignment_target(expression@), thread_id, frame_id }),
            ),
    {
        let target = parse_assignment_target(expression.as_str());
        let context = if target.is_some() {
            EvaluateContext::Variables
        } else {
            EvaluateContext::Repl
        };
        self.pending = Some(PendingEvaluation { target, thread_id, frame_id });
        AdapterRequest::Evaluate { expression, frame_id, context }
    }

    /// Routes the response of the pending evaluation, as
    /// [`spec_eval_response`] describes, and clears the pending slot.
    pub fn on_evaluate_response(
        &mut self,
        console: &mut Console,
        vars: &mut VariableTreeManager,
        result: Result<String, String>,
    ) -> (r: EvalDisposition)
        ensures
            final(self)@.pending is None,
            (final(console)@, final(vars)@, r) == spec_eval_response(
                old(self)@.pending,
                old(console)@,
                old(vars)@,
                eval_outcome(result),
            ),
    {
        let pending = self.pending.take();
        match pending {
            None => EvalDisposition::NoPending,
            Some(pe) => {
                match result {
                    Err(t) => {
                        console.append_result_line(t);
                        EvalDisposition::Routed
                    },
                    Ok(t) => {
                        match pe.target {
                            None => {
                                console.append_result_line(t);
                                EvalDisposition::Routed
                            },
                            Some(name) => {
                                let value = t.clone();
                                let patched = vars.patch_topmost_matching(
                                    pe.thread_id,
                                    pe.frame_id,
                                    &name,
                                    value,
                                );
                                console.append_result_line(t);
                                match patched {
                                    Ok(_) => EvalDisposition::Routed,
                                    Err(_) => EvalDisposition::TargetNotFound,
                                }
                            },
                        }
                    },
                }
            },
        }
    }
}

} // verus!
