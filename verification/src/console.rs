//! Output grouping engine.
//!
//! Consumes output notifications one at a time, in arrival order, and
//! produces zero or one transcript line per notification. A notification
//! may open a group (visible or collapsed), close the innermost open
//! group, or carry plain text. Lines produced inside a collapsed group,
//! or inside any descendant of one, are suppressed; the line that closes
//! a collapsed group carries a hidden-content indicator instead.

use vstd::prelude::*;

verus! {

/// How an output notification relates to the transcript's group structure.
#[derive(Clone, Copy, Debug, PartialEq, Eq, Structural)]
pub enum GroupMarker {
    /// Opens a group whose contents start visible.
    Start,
    /// Opens a group whose contents start hidden.
    StartCollapsed,
    /// Closes the innermost open group.
    End,
}

/// One output notification as the session layer delivers it: the text to
/// show, an optional group marker, and an optional category tag that the
/// engine carries without reading.
pub struct OutputNotification {
    pub text: String,
    pub marker: Option<GroupMarker>,
    pub category: Option<String>,
}

/// Mathematical content of an [`OutputNotification`].
#[verifier::ext_equal]
pub struct NotificationModel {
    pub text: Seq<char>,
    pub marker: Option<GroupMarker>,
    pub category: Option<Seq<char>>,
}

impl View for OutputNotification {
    type V = NotificationModel;

    open spec fn view(&self) -> NotificationModel {
        NotificationModel {
            text: self.text@,
            marker: self.marker,
            category: match self.category {
                Some(c) => Some(c@),
                None => None,
            },
        }
    }
}

/// One currently open group: whether it was opened collapsed, and whether
/// it or any enclosing group was, which suppresses everything inside it.
#[derive(Clone, Copy, Debug, PartialEq, Eq, Structural)]
pub struct GroupFrame {
    pub collapsed: bool,
    pub suppressed: bool,
}

/// One rendered line of the transcript. `depth` counts the groups the line
/// sits inside; `hidden_marker` asks the rendering surface for a leading
/// indicator that content above this line was hidden.
pub struct TranscriptLine {
    pub text: String,
    pub depth: usize,
    pub hidden_marker: bool,
}

/// Mathematical content of a [`TranscriptLine`].
#[verifier::ext_equal]
pub struct LineModel {
    pub text: Seq<char>,
    pub depth: nat,
    pub hidden_marker: bool,
}

impl View for TranscriptLine {
    type V = LineModel;

    open spec fn view(&self) -> LineModel {
        LineModel { text: self.text@, depth: self.depth as nat, hidden_marker: self.hidden_marker }
    }
}

impl DeepView for TranscriptLine {
    type V = LineModel;

    open spec fn deep_view(&self) -> LineModel {
        self.view()
    }
}

/// The one way a notification stream can be malformed: a close marker
/// arrived while no group was open. The event is dropped; the engine is
/// left exactly as it was.
#[derive(Clone, Copy, Debug, PartialEq, Eq, Structural)]
pub enum ConsoleError {
    MalformedGroupSequence,
}

/// State of the engine: the stack of open groups and the transcript
/// produced so far. The transcript is append-only.
#[verifier::ext_equal]
pub struct ConsoleModel {
    pub stack: Seq<GroupFrame>,
    pub lines: Seq<LineModel>,
}

/// Whether a line produced now would fall inside a collapsed group.
pub open spec fn spec_suppressed(stack: Seq<GroupFrame>) -> bool {
    stack.len() > 0 && stack.last().suppressed
}

/// Whether the engine accepts the notification: everything is accepted
/// except a close marker with no open group.
pub open spec fn accepts(s: ConsoleModel, n: NotificationModel) -> bool {
    !(n.marker == Some(GroupMarker::End) && s.stack.len() == 0)
}

/// The engine's transition on one notification. A rejected notification
/// leaves the state unchanged.
pub open spec fn step(s: ConsoleModel, n: NotificationModel) -> ConsoleModel {
    match n.marker {
        Some(GroupMarker::Start) => {
            let sup = spec_suppressed(s.stack);
            ConsoleModel {
                stack: s.stack.push(GroupFrame { collapsed: false, suppressed: sup }),
                lines: if sup {
                    s.lines
                } else {
                    s.lines.push(LineModel { text: n.text, depth: s.stack.len(), hidden_marker: false })
                },
            }
        },
        Some(GroupMarker::StartCollapsed) => ConsoleModel {
            stack: s.stack.push(GroupFrame { collapsed: true, suppressed: true }),
            lines: s.lines,
        },
        Some(GroupMarker::End) => {
            if s.stack.len() == 0 {
                s
            } else {
                ConsoleModel {
                    stack: s.stack.drop_last(),
                    lines: s.lines.push(
                        LineModel {
                            text: n.text,
                            depth: (s.stack.len() - 1) as nat,
                            hidden_marker: s.stack.last().collapsed,
                        },
                    ),
                }
            }
        },
        None => {
            if spec_suppressed(s.stack) {
                s
            } else {
                ConsoleModel {
                    stack: s.stack,
                    lines: s.lines.push(LineModel { text: n.text, depth: s.stack.len(), hidden_marker: false }),
                }
            }
        },
    }
}

/// A stored suppression flag is exactly "this frame or some enclosing
/// frame is collapsed". Constructors establish it; every transition
/// preserves it.
pub open spec fn wf_stack(stack: Seq<GroupFrame>) -> bool {
    forall|i: int|
        0 <= i < stack.len() ==> (#[trigger] stack[i].suppressed <==> exists|j: int|
            0 <= j <= i && (#[trigger] stack[j].collapsed))
}

impl ConsoleModel {
    /// The suppression flags of the open groups are consistent.
    pub open spec fn wf(self) -> bool {
        wf_stack(self.stack)
    }
}

/// The grouped, collapsible console transcript, together with the stack of
/// currently open groups that shapes lines still to come.
pub struct Console {
    stack: Vec<GroupFrame>,
    lines: Vec<TranscriptLine>,
}

impl View for Console {
    type V = ConsoleModel;

    closed spec fn view(&self) -> ConsoleModel {
        ConsoleModel { stack: self.stack@, lines: self.lines.deep_view() }
    }
}

impl Console {
    /// An engine with no open group and an empty transcript.
    pub fn new() -> (c: Console)
        ensures
            c@.stack == Seq::<GroupFrame>::empty(),
            c@.lines == Seq::<LineModel>::empty(),
            c@.wf(),
    {
        let c = Console { stack: Vec::new(), lines: Vec::new() };
        proof {
            assert(c@.lines =~= Seq::<LineModel>::empty());
        }
        c
    }

    fn currently_suppressed(&self) -> (r: bool)
        ensures
            r == spec_suppressed(self@.stack),
    {
        if self.stack.len() == 0 {
            false
        } else {
            self.stack[self.stack.len() - 1].suppressed
        }
    }

    /// Consumes one notification, in arrival order, and appends at most one
    /// transcript line as [`step`] describes. The only rejected input is a
    /// close marker with no open group; it is dropped without any effect.
    pub fn handle_output(&mut self, n: OutputNotification) -> (r: Result<(), ConsoleError>)
        requires
            old(self)@.wf(),
        ensures
            final(self)@ == step(old(self)@, n@),
            r is Ok <==> accepts(old(self)@, n@),
            final(self)@.wf(),
    {
        proof {
            lemma_step_preserves_wf(self@, n@);
        }
        match n.marker {
            Some(GroupMarker::Start) => {
                let sup = self.currently_suppressed();
                if !sup {
                    let depth = self.stack.len();
                    self.lines.push(TranscriptLine { text: n.text, depth, hidden_marker: false });
                }
                self.stack.push(GroupFrame { collapsed: false, suppressed: sup });
                proof {
                    assert(self@ =~= step(old(self)@, n@));
                }
                Ok(())
            },
            Some(GroupMarker::StartCollapsed) => {
                self.stack.push(GroupFrame { collapsed: true, suppressed: true });
                proof {
                    assert(self@ =~= step(old(self)@, n@));
                }
                Ok(())
            },
            Some(GroupMarker::End) => {
                if self.stack.len() == 0 {
                    proof {
                        assert(self@ =~= step(old(self)@, n@));
                    }
                    Err(ConsoleError::MalformedGroupSequence)
                } else {
                    let popped = self.stack.pop().unwrap();
                    let depth = self.stack.len();
                    self.lines.push(
                        TranscriptLine { text: n.text, depth, hidden_marker: popped.collapsed },
                    );
                    proof {
                        assert(self@ =~= step(old(self)@, n@));
                    }
                    Ok(())
                }
            },
            None => {
                if self.currently_suppressed() {
                    proof {
                        assert(self@ =~= step(old(self)@, n@));
                    }
                } else {
                    let depth = self.stack.len();
                    self.lines.push(TranscriptLine { text: n.text, depth, hidden_marker: false });
                    proof {
                        assert(self@ =~= step(old(self)@, n@));
                    }
                }
                Ok(())
            },
        }
    }

    /// Appends one result line at depth zero, outside any grouping; used
    /// for evaluation results, which never join an open group.
    pub fn append_result_line(&mut self, text: String)
        ensures
            final(self)@.stack == old(self)@.stack,
            final(self)@.lines == old(self)@.lines.push(
                (LineModel { text: text@, depth: 0, hidden_marker: false }),
            ),
            old(self)@.wf() ==> final(self)@.wf(),
    {
        self.lines.push(TranscriptLine { text, depth: 0, hidden_marker: false });
    }

    /// The transcript produced so far, in production order.
    pub fn transcript(&self) -> (r: &Vec<TranscriptLine>)
        ensures
            r.deep_view() == self@.lines,
    {
        &self.lines
    }

    /// How many groups are currently open; the depth that the next
    /// unsuppressed plain line would carry.
    pub fn open_group_count(&self) -> (r: usize)
        ensures
            r == self@.stack.len(),
    {
        self.stack.len()
    }
}

/// Opening a group whose suppression flag is computed from its own
/// collapsed flag and the state of the group below it keeps the stack
/// consistent.
proof fn lemma_push_preserves_wf(stack: Seq<GroupFrame>, f: GroupFrame)
    requires
        wf_stack(stack),
        f.suppressed == (f.collapsed || spec_suppressed(stack)),
    ensures
        wf_stack(stack.push(f)),
{
    let t = stack.push(f);
    assert forall|i: int|
        0 <= i < t.len() implies (#[trigger] t[i].suppressed <==> exists|j: int|
        0 <= j <= i && (#[trigger] t[j].collapsed)) by {
        if i < stack.len() {
            assert(t[i] == stack[i]);
            if t[i].suppressed {
                let j = choose|j: int| 0 <= j <= i && (#[trigger] stack[j].collapsed);
                assert(t[j] == stack[j]);
                assert(t[j].collapsed);
            }
            if exists|j: int| 0 <= j <= i && (#[trigger] t[j].collapsed) {
                let j = choose|j: int| 0 <= j <= i && (#[trigger] t[j].collapsed);
                assert(t[j] == stack[j]);
                assert(stack[j].collapsed);
            }
        } else {
            assert(i == stack.len());
            assert(t[i] == f);
            if f.suppressed {
                if f.collapsed {
                    assert(t[i].collapsed);
                } else {
                    assert(stack.len() > 0 && stack[stack.len() - 1].suppressed);
                    let j = choose|j: int|
                        0 <= j <= stack.len() - 1 && (#[trigger] stack[j].collapsed);
                    assert(t[j] == stack[j]);
                    assert(t[j].collapsed);
                }
            }
            if exists|j: int| 0 <= j <= i && (#[trigger] t[j].collapsed) {
                let j = choose|j: int| 0 <= j <= i && (#[trigger] t[j].collapsed);
                if j == i {
                    assert(f.collapsed);
                } else {
                    assert(t[j] == stack[j]);
                    assert(stack[j].collapsed);
                    assert(stack[stack.len() - 1].suppressed);
                    assert(f.suppressed);
                }
            }
        }
    }
}

/// Closing the innermost group keeps the stack consistent.
proof fn lemma_drop_last_preserves_wf(stack: Seq<GroupFrame>)
    requires
        wf_stack(stack),
        stack.len() > 0,
    ensures
        wf_stack(stack.drop_last()),
{
    let t = stack.drop_last();
    assert forall|i: int|
        0 <= i < t.len() implies (#[trigger] t[i].suppressed <==> exists|j: int|
        0 <= j <= i && (#[trigger] t[j].collapsed)) by {
        assert(t[i] == stack[i]);
        if t[i].suppressed {
            let j = choose|j: int| 0 <= j <= i && (#[trigger] stack[j].collapsed);
            assert(t[j] == stack[j]);
            assert(t[j].collapsed);
        }
        if exists|j: int| 0 <= j <= i && (#[trigger] t[j].collapsed) {
            let j = choose|j: int| 0 <= j <= i && (#[trigger] t[j].collapsed);
            assert(t[j] == stack[j]);
            assert(stack[j].collapsed);
        }
    }
}

/// Every transition preserves the suppression invariant.
pub proof fn lemma_step_preserves_wf(s: ConsoleModel, n: NotificationModel)
    requires
        s.wf(),
    ensures
        step(s, n).wf(),
{
    match n.marker {
        Some(GroupMarker::Start) => {
            let sup = spec_suppressed(s.stack);
            lemma_push_preserves_wf(s.stack, GroupFrame { collapsed: false, suppressed: sup });
        },
        Some(GroupMarker::StartCollapsed) => {
            lemma_push_preserves_wf(s.stack, GroupFrame { collapsed: true, suppressed: true });
        },
        Some(GroupMarker::End) => {
            if s.stack.len() > 0 {
                lemma_drop_last_preserves_wf(s.stack);
            }
        },
        None => {},
    }
}

/// The engine run over a whole sequence of notifications, oldest first.
pub open spec fn run(s: ConsoleModel, ns: Seq<NotificationModel>) -> ConsoleModel
    decreases ns.len(),
{
    if ns.len() == 0 {
        s
    } else {
        step(run(s, ns.drop_last()), ns.last())
    }
}


/// The transcript is append-only: no transition rewrites or drops a line
/// already produced, so lines stand in strict arrival order forever.
pub proof fn lemma_transcript_append_only(s: ConsoleModel, n: NotificationModel)
    ensures
        step(s, n).lines.len() >= s.lines.len(),
        forall|i: int| 0 <= i < s.lines.len() ==> step(s, n).lines[i] == #[trigger] s.lines[i],
{
}

/// Append-only over a whole run: everything once in the transcript stays,
/// unchanged and in place.
pub proof fn lemma_run_append_only(s: ConsoleModel, ns: Seq<NotificationModel>)
    ensures
        run(s, ns).lines.len() >= s.lines.len(),
        forall|i: int| 0 <= i < s.lines.len() ==> run(s, ns).lines[i] == #[trigger] s.lines[i],
    decreases ns.len(),
{
    if ns.len() == 0 {
    } else {
        lemma_run_append_only(s, ns.drop_last());
        lemma_transcript_append_only(run(s, ns.drop_last()), ns.last());
    }
}

/// Whether the notification opens a group, visible or collapsed.
pub open spec fn opens_group(n: NotificationModel) -> bool {
    n.marker == Some(GroupMarker::Start) || n.marker == Some(GroupMarker::StartCollapsed)
}

/// Whether the notification closes a group.
pub open spec fn closes_group(n: NotificationModel) -> bool {
    n.marker == Some(GroupMarker::End)
}

/// How many notifications of the sequence open a group.
pub open spec fn count_opens(ns: Seq<NotificationModel>) -> int
    decreases ns.len(),
{
    if ns.len() == 0 {
        0
    } else {
        count_opens(ns.drop_last()) + if opens_group(ns.last()) {
            1int
        } else {
            0int
        }
    }
}

/// How many notifications of the sequence close a group.
pub open spec fn count_closes(ns: Seq<NotificationModel>) -> int
    decreases ns.len(),
{
    if ns.len() == 0 {
        0
    } else {
        count_closes(ns.drop_last()) + if closes_group(ns.last()) {
            1int
        } else {
            0int
        }
    }
}

/// No prefix of the sequence closes more groups than it opened.
pub open spec fn no_unmatched_close(ns: Seq<NotificationModel>) -> bool {
    forall|i: int|
        0 <= i <= ns.len() ==> count_closes(#[trigger] ns.take(i)) <= count_opens(ns.take(i))
}

/// Starting from no open group, a stream in which no close is unmatched
/// leaves exactly the surplus of opens over closes open.
pub proof fn lemma_run_group_depth(s: ConsoleModel, ns: Seq<NotificationModel>)
    requires
        s.stack.len() == 0,
        no_unmatched_close(ns),
    ensures
        run(s, ns).stack.len() == count_opens(ns) - count_closes(ns),
    decreases ns.len(),
{
    if ns.len() == 0 {
    } else {
        let ns0 = ns.drop_last();
        assert forall|i: int|
            0 <= i <= ns0.len() implies count_closes(#[trigger] ns0.take(i)) <= count_opens(
            ns0.take(i),
        ) by {
            assert(ns0.take(i) =~= ns.take(i));
            assert(count_closes(ns.take(i)) <= count_opens(ns.take(i)));
        }
        lemma_run_group_depth(s, ns0);
        let m = run(s, ns0);
        let l = ns.last();
        assert(ns.take(ns.len() as int) =~= ns);
        assert(ns.take(ns0.len() as int) =~= ns0);
        assert(count_closes(ns) <= count_opens(ns));
        if closes_group(l) {
            assert(m.stack.len() > 0);
        }
    }
}

/// A stream of markers in which every open is closed and no close is
/// unmatched returns the engine to zero open groups.
pub proof fn lemma_balanced_run_closes_all_groups(s: ConsoleModel, ns: Seq<NotificationModel>)
    requires
        s.stack.len() == 0,
        no_unmatched_close(ns),
        count_opens(ns) == count_closes(ns),
    ensures
        run(s, ns).stack.len() == 0,
{
    lemma_run_group_depth(s, ns);
}

/// The larger of two integers.
pub open spec fn int_max(a: int, b: int) -> int {
    if a > b {
        a
    } else {
        b
    }
}

/// The deepest the group stack stands at any point of the run, the start
/// and the end included.
pub open spec fn peak_group_depth(s: ConsoleModel, ns: Seq<NotificationModel>) -> int
    decreases ns.len(),
{
    if ns.len() == 0 {
        s.stack.len() as int
    } else {
        int_max(peak_group_depth(s, ns.drop_last()), run(s, ns).stack.len() as int)
    }
}

/// The deepest indentation that occurs in the transcript; zero when it is
/// empty.
pub open spec fn max_line_depth(lines: Seq<LineModel>) -> int
    decreases lines.len(),
{
    if lines.len() == 0 {
        0
    } else {
        int_max(max_line_depth(lines.drop_last()), lines.last().depth as int)
    }
}

proof fn lemma_max_line_depth_push(lines: Seq<LineModel>, x: LineModel)
    ensures
        max_line_depth(lines.push(x)) == int_max(max_line_depth(lines), x.depth as int),
{
    assert(lines.push(x).drop_last() =~= lines);
    assert(lines.push(x).last() == x);
}

proof fn lemma_peak_ge_run(s: ConsoleModel, ns: Seq<NotificationModel>)
    ensures
        peak_group_depth(s, ns) >= run(s, ns).stack.len(),
        peak_group_depth(s, ns) >= s.stack.len(),
    decreases ns.len(),
{
    if ns.len() == 0 {
    } else {
        lemma_peak_ge_run(s, ns.drop_last());
    }
}

/// No transcript line is ever indented deeper than the group stack stood
/// at some point of the run: the transcript's maximum depth is bounded by
/// the maximum group depth reached.
pub proof fn lemma_transcript_depth_within_peak(s: ConsoleModel, ns: Seq<NotificationModel>)
    ensures
        max_line_depth(run(s, ns).lines) <= int_max(
            max_line_depth(s.lines),
            peak_group_depth(s, ns),
        ),
    decreases ns.len(),
{
    if ns.len() == 0 {
    } else {
        let ns0 = ns.drop_last();
        lemma_transcript_depth_within_peak(s, ns0);
        lemma_peak_ge_run(s, ns0);
        let m = run(s, ns0);
        let l = ns.last();
        let t = step(m, l);
        match l.marker {
            Some(GroupMarker::Start) => {
                if !spec_suppressed(m.stack) {
                    lemma_max_line_depth_push(
                        m.lines,
                        LineModel { text: l.text, depth: m.stack.len(), hidden_marker: false },
                    );
                }
            },
            Some(GroupMarker::StartCollapsed) => {},
            Some(GroupMarker::End) => {
                if m.stack.len() > 0 {
                    lemma_max_line_depth_push(
                        m.lines,
                        LineModel {
                            text: l.text,
                            depth: (m.stack.len() - 1) as nat,
                            hidden_marker: m.stack.last().collapsed,
                        },
                    );
                }
            },
            None => {
                if !spec_suppressed(m.stack) {
                    lemma_max_line_depth_push(
                        m.lines,
                        LineModel { text: l.text, depth: m.stack.len(), hidden_marker: false },
                    );
                }
            },
        }
    }
}

/// A collapsed group closed immediately, with no content in between,
/// still contributes exactly one transcript line: the closing line, at
/// the depth the group header stood, carrying the hidden-content
/// indicator.
pub proof fn lemma_empty_collapsed_group_leaves_one_marked_line(
    s: ConsoleModel,
    open_n: NotificationModel,
    close_n: NotificationModel,
)
    requires
        open_n.marker == Some(GroupMarker::StartCollapsed),
        close_n.marker == Some(GroupMarker::End),
    ensures
        step(step(s, open_n), close_n).stack == s.stack,
        step(step(s, open_n), close_n).lines == s.lines.push(
            (LineModel { text: close_n.text, depth: s.stack.len(), hidden_marker: true }),
        ),
{
    let f = GroupFrame { collapsed: true, suppressed: true };
    assert(s.stack.push(f).drop_last() =~= s.stack);
    assert(s.stack.push(f).last() == f);
}

/// Collapse of an ancestor dominates: while any open group below is
/// collapsed, a plain notification is dropped whole, however many open
/// visible groups stand above it.
pub proof fn lemma_collapsed_ancestor_suppresses_plain_line(
    s: ConsoleModel,
    n: NotificationModel,
    i: int,
)
    requires
        s.wf(),
        0 <= i < s.stack.len(),
        s.stack[i].collapsed,
        n.marker is None,
    ensures
        step(s, n) == s,
{
    assert(0 <= i <= s.stack.len() - 1 && s.stack[i].collapsed);
    assert(s.stack[s.stack.len() - 1].suppressed);
}

} // verus!
