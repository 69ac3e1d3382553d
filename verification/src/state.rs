//! Session state and its owner: the chat snapshot the worker reports, the
//! ordered timeline of events, the exclusive UI mode, and the dispatcher
//! that folds one worker notification into the state.
use vstd::prelude::*;

verus! {

use crate::buffer::EditableBuffer;

/// Exclusive input-interpretation state; exactly one is active at a time.
#[derive(Clone, Copy, Debug, PartialEq, Eq, Structural)]
pub enum UiMode {
    /// Ordinary editing of the input line.
    Normal,
    /// The slash-command palette.
    CommandPalette,
    /// The file-mention picker.
    FileMention,
    /// The model picker.
    ModelPicker,
    /// The session-history browser.
    SessionHistory,
    /// A pending question from the worker.
    QuestionPrompt,
    /// The plan-acceptance prompt.
    PlanActions,
    /// The help overlay.
    HelpAbout,
}

/// Token counters the worker reports.
#[derive(Debug)]
pub struct TokenUsage {
    /// Input tokens consumed.
    pub input: u64,
    /// Output tokens produced.
    pub output: u64,
    /// Context tokens, when reported.
    pub context: Option<u64>,
    /// Model the counters belong to, when reported.
    pub model: Option<String>,
}

/// One attachment carried by a timeline event.
#[derive(Debug)]
pub struct Attachment {
    /// Attachment kind tag.
    pub kind: String,
    /// MIME type, when reported.
    pub mime: Option<String>,
    /// Line count of a pasted text attachment, when reported.
    pub line_count: Option<u64>,
    /// Text payload, when present.
    pub text: Option<String>,
    /// Encoded binary payload, when present.
    pub data: Option<String>,
}

/// One entry of the session timeline, identified by a stable id and
/// replaced in place when the same id arrives again.
#[derive(Debug)]
pub struct TimelineEvent {
    /// Stable identifier; upserts match on it.
    pub id: String,
    /// Session the event belongs to.
    pub session_id: String,
    /// Creation time, as the worker reports it.
    pub created_at: i64,
    /// Kind tag: user or assistant message, reasoning, tool call or result,
    /// status, or other.
    pub kind: String,
    /// Free-form content.
    pub content: String,
    /// Token usage attributed to the event, when reported.
    pub tokens: Option<TokenUsage>,
    /// Whether the content is still streaming.
    pub streaming: Option<bool>,
    /// Call id of a tool event.
    pub tool_call_id: Option<String>,
    /// Tool name of a tool event.
    pub tool_name: Option<String>,
    /// Status of a tool call.
    pub status: Option<String>,
    /// Attachments carried by the event.
    pub attachments: Option<Vec<Attachment>>,
}

/// Context-window usage the worker reports.
#[derive(Clone, Copy, Debug)]
pub struct ContextUsage {
    /// Tokens used.
    pub used: u64,
    /// Window limit.
    pub limit: u64,
    /// Used percentage, already computed by the worker.
    pub percent: u64,
}

/// The session snapshot: replaced wholesale on a full-state notification,
/// updated field by field on narrower ones.
#[derive(Debug)]
pub struct ChatState {
    /// Whether the worker is processing a request.
    pub is_loading: bool,
    /// Last error the worker reported in the snapshot.
    pub error: Option<String>,
    /// The ordered timeline, in first-seen order.
    pub timeline_events: Vec<TimelineEvent>,
    /// Session-wide token counters, when reported.
    pub session_tokens: Option<TokenUsage>,
    /// Context-window usage.
    pub context_usage: ContextUsage,
    /// Transient context status string.
    pub context_status: Option<String>,
    /// Token counters of the latest exchange.
    pub tokens: TokenUsage,
    /// Active session identifier.
    pub session_id: Option<String>,
    /// Whether the worker proposed leaving plan mode.
    pub plan_exit_proposed: bool,
    /// Active agent identifier.
    pub agent: String,
    /// Model override, when one is set.
    pub model_override: Option<String>,
    /// Provider override, when one is set.
    pub provider_override: Option<String>,
    /// Reasoning-effort override, when one is set.
    pub reasoning_effort_override: Option<String>,
}

/// Index of the first event with the given id, or the sequence length.
pub open spec fn find_event(events: Seq<TimelineEvent>, id: Seq<char>, i: int) -> int
    decreases events.len() - i,
{
    if i < 0 || i >= events.len() {
        events.len() as int
    } else if events[i].id@ == id {
        i
    } else {
        find_event(events, id, i + 1)
    }
}

/// The timeline after an upsert: an existing id is replaced in place, an
/// unknown id is appended; order is never changed.
pub open spec fn upsert_spec(events: Seq<TimelineEvent>, e: TimelineEvent) -> Seq<TimelineEvent> {
    let j = find_event(events, e.id@, 0);
    if j < events.len() {
        events.update(j, e)
    } else {
        events.push(e)
    }
}

/// Law: upserting an event whose id is already present replaces that entry
/// in place, keeps every other entry at its position, and keeps the count;
/// upserting an unknown id appends and grows the count by one.
pub proof fn lemma_upsert_in_place(events: Seq<TimelineEvent>, e: TimelineEvent)
    ensures
        ({
            let j = find_event(events, e.id@, 0);
            let r = upsert_spec(events, e);
            &&& 0 <= j <= events.len()
            &&& (j < events.len() ==> r.len() == events.len() && r[j] == e && forall|k: int|
                0 <= k < events.len() && k != j ==> r[k] == events[k])
            &&& (j == events.len() ==> r.len() == events.len() + 1 && r[j] == e && forall|k: int|
                0 <= k < events.len() ==> r[k] == events[k])
        }),
{
    lemma_find_event_range(events, e.id@, 0);
}

/// The found index is in range and is the first hit.
pub proof fn lemma_find_event_range(events: Seq<TimelineEvent>, id: Seq<char>, i: int)
    requires
        0 <= i <= events.len(),
    ensures
        i <= find_event(events, id, i) <= events.len(),
        find_event(events, id, i) < events.len() ==> events[find_event(events, id, i)].id@ == id,
        forall|k: int| i <= k < find_event(events, id, i) ==> events[k].id@ != id,
    decreases events.len() - i,
{
    if i < events.len() && events[i].id@ != id {
        lemma_find_event_range(events, id, i + 1);
    }
}

/// Upsert one event into a timeline: replace the first entry carrying the
/// same id, or append when the id is new.
pub fn upsert_event(events: &mut Vec<TimelineEvent>, e: TimelineEvent)
    ensures
        final(events)@ == upsert_spec(old(events)@, e),
{
    let ghost evs = events@;
    let n = events.len();
    let mut i: usize = 0;
    while i < n
        invariant
            i <= n == evs.len(),
            evs == events@,
            evs == old(events)@,
            find_event(evs, e.id@, 0) == find_event(evs, e.id@, i as int),
        decreases n - i,
    {
        if crate::strutil::str_eq(events[i].id.as_str(), e.id.as_str()) {
            proof {
                assert(find_event(evs, e.id@, i as int) == i);
            }
            events.set(i, e);
            return ;
        }
        i = i + 1;
    }
    proof {
        assert(find_event(evs, e.id@, n as int) == evs.len());
    }
    events.push(e);
}

/// One stored session, as the history list reports it.
#[derive(Debug)]
pub struct SessionInfo {
    /// Session identifier.
    pub id: String,
    /// Title shown in the browser.
    pub title: String,
    /// Message count, when reported.
    pub message_count: Option<u64>,
    /// First message preview, when reported.
    pub first_message: Option<String>,
}

/// One todo entry.
#[derive(Debug)]
pub struct TodoItem {
    /// Todo identifier.
    pub id: String,
    /// Todo text.
    pub content: String,
    /// Status tag: pending, in progress, or completed.
    pub status: String,
    /// Priority tag, when reported.
    pub priority: Option<String>,
}

/// Todo counters.
#[derive(Clone, Copy, Debug)]
pub struct TodoCounts {
    /// Pending todos.
    pub pending: u64,
    /// Todos in progress.
    pub in_progress: u64,
    /// Completed todos.
    pub completed: u64,
    /// All todos.
    pub total: u64,
}

/// One selectable answer of a pending question.
#[derive(Debug)]
pub struct QuestionOption {
    /// Answer label, sent back verbatim.
    pub label: String,
    /// Explanation shown beside it, when present.
    pub description: Option<String>,
}

/// One question inside a pending-question record.
#[derive(Debug)]
pub struct QuestionInfo {
    /// Question identifier.
    pub id: String,
    /// The question text.
    pub question: String,
    /// Heading above it, when present.
    pub header: Option<String>,
    /// The selectable answers.
    pub options: Vec<QuestionOption>,
    /// Whether several answers may be chosen.
    pub allow_multiple: Option<bool>,
    /// Whether a free-form answer is allowed.
    pub allow_custom: Option<bool>,
}

/// A pending-question record from a poll cycle.
#[derive(Debug)]
pub struct PendingQuestion {
    /// Record identifier; answers are sent against it.
    pub id: String,
    /// Session the question belongs to.
    pub session_id: String,
    /// The questions it carries.
    pub questions: Vec<QuestionInfo>,
}

/// Transient state of the question prompt overlay.
#[derive(Debug)]
pub struct QuestionState {
    /// Record identifier.
    pub id: String,
    /// The question text.
    pub question: String,
    /// Heading, when present.
    pub header: Option<String>,
    /// The selectable answers.
    pub options: Vec<QuestionOption>,
    /// Whether several answers may be chosen.
    pub allow_multiple: bool,
    /// Whether a free-form answer is allowed.
    pub allow_custom: bool,
    /// Selection flags, one per option.
    pub selected: Vec<bool>,
    /// Row the focus is on.
    pub focused_index: usize,
    /// Free-form answer being typed.
    pub custom_input: String,
    /// Whether the free-form row is being edited.
    pub custom_active: bool,
}

impl Clone for SessionInfo {
    /// A clone carries the same field values.
    fn clone(&self) -> (r: Self)
        ensures
            r == *self,
    {
        SessionInfo {
            id: self.id.clone(),
            title: self.title.clone(),
            message_count: self.message_count,
            first_message: match &self.first_message {
                Some(m) => Some(m.clone()),
                None => None,
            },
        }
    }
}

/// Index of the first selected flag.
pub open spec fn first_true(sel: Seq<bool>, i: int) -> int
    decreases sel.len() - i,
{
    if i < 0 || i >= sel.len() {
        0
    } else if sel[i] {
        i
    } else {
        first_true(sel, i + 1)
    }
}

/// Position of the first selected option, or 0 when none is selected.
pub fn selected_index(selected: Vec<bool>) -> (r: usize)
    ensures
        r as int == first_true(selected@, 0),
{
    let n = selected.len();
    let mut i: usize = 0;
    while i < n
        invariant
            i <= n == selected@.len(),
            first_true(selected@, 0) == first_true(selected@, i as int),
        decreases n - i,
    {
        if selected[i] {
            return i;
        }
        i = i + 1;
    }
    0
}

/// Toggle or select one option: with multiple answers allowed the flag at
/// `idx` flips; otherwise `idx` becomes the only selected flag. Nothing
/// changes when the question has no options.
pub fn select_option(q: &mut QuestionState, idx: usize)
    ensures
        old(q).options@.len() == 0 ==> *final(q) == *old(q),
        old(q).options@.len() > 0 ==> ({
            &&& *final(q) == (QuestionState { selected: final(q).selected, ..*old(q) })
            &&& final(q).selected@.len() == old(q).selected@.len()
            &&& (old(q).allow_multiple ==> forall|k: int|
                0 <= k < old(q).selected@.len() ==> final(q).selected@[k] == (if k == idx {
                    !old(q).selected@[k]
                } else {
                    old(q).selected@[k]
                }))
            &&& (!old(q).allow_multiple ==> forall|k: int|
                0 <= k < old(q).selected@.len() ==> final(q).selected@[k] == (k == idx))
        }),
{
    if q.options.len() == 0 {
        return ;
    }
    if q.allow_multiple {
        if idx < q.selected.len() {
            let v = q.selected[idx];
            q.selected.set(idx, !v);
        }
    } else {
        let n = q.selected.len();
        let mut k: usize = 0;
        while k < n
            invariant
                k <= n == q.selected@.len(),
                *q == (QuestionState { selected: q.selected, ..*old(q) }),
                forall|j: int| 0 <= j < k ==> q.selected@[j] == false,
                forall|j: int| k <= j < n ==> q.selected@[j] == old(q).selected@[j],
            decreases n - k,
        {
            q.selected.set(k, false);
            k = k + 1;
        }
        if idx < q.selected.len() {
            q.selected.set(idx, true);
        }
    }
}

/// The labels of the selected options, in option order.
pub open spec fn spec_answers(opts: Seq<QuestionOption>, sel: Seq<bool>, i: int) -> Seq<
    Seq<char>,
>
    decreases opts.len() - i,
{
    if i < 0 || i >= opts.len() {
        Seq::empty()
    } else {
        let rest = spec_answers(opts, sel, i + 1);
        if i < sel.len() && sel[i] {
            seq![opts[i].label@] + rest
        } else {
            rest
        }
    }
}

/// The collected answers: the labels of the selected options in option
/// order, with the trimmed free-form answer appended when one is allowed
/// and present.
pub open spec fn spec_collected(q: QuestionState, views: Seq<Seq<char>>) -> bool {
    let base = spec_answers(q.options@, q.selected@, 0);
    let ct = crate::strutil::trimmed(crate::strutil::string_bytes(q.custom_input));
    if q.allow_custom && ct.len() > 0 {
        views.len() == base.len() + 1 && views.subrange(0, base.len() as int) == base
            && vstd::utf8::encode_utf8(views.last()) == ct
    } else {
        views == base
    }
}

/// Collect the answers to submit: the labels of every selected option, and
/// the trimmed free-form answer when one is allowed and present.
pub fn collect_answers(q: &QuestionState) -> (r: Vec<String>)
    ensures
        spec_collected(*q, r@.map_values(|s: String| s@)),
{
    let mut r: Vec<String> = Vec::new();
    let n = q.options.len();
    let mut i: usize = 0;
    proof {
        assert(r@.map_values(|s: String| s@) =~= Seq::<Seq<char>>::empty());
    }
    while i < n
        invariant
            i <= n == q.options@.len(),
            r@.map_values(|s: String| s@) + spec_answers(q.options@, q.selected@, i as int)
                =~= spec_answers(q.options@, q.selected@, 0),
        decreases n - i,
    {
        let ghost pre = r@;
        if i < q.selected.len() && q.selected[i] {
            r.push(q.options[i].label.clone());
            proof {
                assert(r@.map_values(|s: String| s@) =~= pre.map_values(|s: String| s@).push(
                    q.options@[i as int].label@,
                ));
                assert(pre.map_values(|s: String| s@).push(q.options@[i as int].label@)
                    + spec_answers(q.options@, q.selected@, i + 1) =~= pre.map_values(
                    |s: String| s@,
                ) + spec_answers(q.options@, q.selected@, i as int));
            }
        }
        i = i + 1;
    }
    proof {
        assert(r@.map_values(|s: String| s@) =~= spec_answers(q.options@, q.selected@, 0));
    }
    if q.allow_custom {
        let ct = crate::strutil::trim_owned(q.custom_input.as_str());
        if ct.as_str().as_bytes().len() > 0 {
            let ghost pre = r@;
            r.push(ct);
            proof {
                assert(r@.map_values(|s: String| s@) =~= pre.map_values(|s: String| s@).push(
                    r@.last()@,
                ));
                assert(r@.map_values(|s: String| s@).subrange(
                    0,
                    pre.len() as int,
                ) =~= pre.map_values(|s: String| s@));
            }
            return r;
        }
        proof {
            let tb = crate::strutil::trimmed(crate::strutil::string_bytes(q.custom_input));
            assert(tb.len() == 0);
        }
    }
    r
}

/// One worker notification, already parsed into plain values.
pub enum Notification {
    /// Replace the whole session snapshot.
    StateReplace(ChatState),
    /// Upsert one timeline event.
    Timeline(TimelineEvent),
    /// Merge the token counters that are present.
    TokensUpdate {
        /// New exchange counters, when present.
        tokens: Option<TokenUsage>,
        /// New session counters, when present.
        session_tokens: Option<TokenUsage>,
        /// New context usage, when present.
        context_usage: Option<ContextUsage>,
    },
    /// Replace the context status string.
    ContextStatus(String),
    /// The worker proposes leaving plan mode.
    PlanExitProposed(bool),
    /// The active session changed.
    SessionChanged(String),
    /// Surface an error as a transient notice.
    ErrorNotice(String),
    /// A method name this client does not know; ignored.
    Unknown,
}

/// A copy of an optional string.
pub fn clone_opt_string(o: &Option<String>) -> (r: Option<String>)
    ensures
        r == *o,
{
    match o {
        Some(s) => Some(s.clone()),
        None => None,
    }
}

/// A counter bumped without wrapping.
pub open spec fn bump(v: u64) -> u64 {
    if v == u64::MAX {
        v
    } else {
        (v + 1) as u64
    }
}


/// Render and scroll bookkeeping of the frame.
pub struct ViewState {
    /// Active UI mode.
    pub mode: UiMode,
    /// Whether the splash is shown instead of the timeline.
    pub show_splash: bool,
    /// Whether the timeline hides reasoning events.
    pub compact_view: bool,
    /// Scroll position, counted from the bottom.
    pub scroll_from_bottom: usize,
    /// Whether the view follows the newest output.
    pub auto_scroll: bool,
    /// A redraw is wanted on the next tick.
    pub dirty: bool,
    /// The terminal should be cleared before the next frame.
    pub needs_clear: bool,
    /// Bumped whenever the timeline changes; keys the render cache.
    pub timeline_revision: u64,
    /// Spinner animation frame.
    pub spinner_index: usize,
    /// Transient notice, when one is shown.
    pub toast: Option<String>,
    /// Whether telemetry details are shown.
    pub show_telemetry_details: bool,
}

/// One entry of the file-mention index.
#[derive(Debug)]
pub struct FileResult {
    /// Path relative to the project directory.
    pub relative_path: String,
    /// Whether the entry is a directory.
    pub is_dir: bool,
}

/// Transient substate of the overlays: queries, selections and paging.
pub struct PickerState {
    /// Command palette query.
    pub command_query: String,
    /// Command palette selection.
    pub command_selected: usize,
    /// Command palette paging offset.
    pub command_offset: usize,
    /// File picker selection.
    pub file_selected: usize,
    /// Model picker query.
    pub model_query: String,
    /// Model picker selection.
    pub model_selected: usize,
    /// Model picker paging offset.
    pub model_offset: usize,
    /// Models shown by the picker.
    pub model_entries: Vec<crate::commands::ModelEntry>,
    /// Whether the custom-model row is being edited.
    pub custom_model_mode: bool,
    /// Custom model name being typed.
    pub custom_model_input: String,
    /// Sessions shown by the history browser.
    pub session_list: Vec<SessionInfo>,
    /// History browser selection.
    pub session_selected: usize,
    /// History browser paging offset.
    pub session_offset: usize,
    /// Whether a rename is being typed in the history browser.
    pub session_rename_active: bool,
    /// Rename text being typed.
    pub session_rename_input: String,
    /// The history list is stale and must be fetched again.
    pub history_needs_refresh: bool,
    /// The question prompt's state, when one is shown.
    pub question: Option<QuestionState>,
    /// Current todos.
    pub todos: Vec<TodoItem>,
    /// Todo counters.
    pub todo_counts: TodoCounts,
    /// Whether the todo strip is expanded.
    pub todos_expanded: bool,
    /// Indexed files for the mention picker.
    pub file_index: Vec<FileResult>,
}

/// Long-lived flags and identifiers of the running session.
pub struct RuntimeState {
    /// Set when the user asked to quit.
    pub should_quit: bool,
    /// Current reasoning effort label.
    pub reasoning_effort: String,
    /// Project directory handed to the worker.
    pub project_dir: String,
    /// Model name used when no override is set.
    pub base_model: String,
    /// Pending double-key state.
    pub pending_gg: bool,
    /// A todo fetch is in flight.
    pub todos_request_inflight: bool,
    /// A question poll is in flight.
    pub question_request_inflight: bool,
    /// A reindex operation is in flight.
    pub reindex_inflight: bool,
}

/// The session engine's mutable state: the worker snapshot, the editable
/// input buffer, the view and overlay substate, and the session flags.
pub struct App {
    /// Latest session snapshot.
    pub state: ChatState,
    /// The editable input buffer with its attachments.
    pub buffer: EditableBuffer,
    /// Render and scroll bookkeeping.
    pub view: ViewState,
    /// Overlay substate.
    pub pickers: PickerState,
    /// Session flags and identifiers.
    pub runtime: RuntimeState,
}

/// The view bookkeeping after a full-state replace: the splash leaves once
/// a timeline exists, a newly loading session pins the view to the bottom,
/// the revision is bumped and a redraw is requested.
pub fn refresh_view(view: &mut ViewState, was_loading: bool, now_loading: bool, tl_empty: bool)
    ensures
        ({
            let o = *old(view);
            let f = *final(view);
            &&& f == (ViewState {
                show_splash: o.show_splash && tl_empty,
                auto_scroll: f.auto_scroll,
                scroll_from_bottom: f.scroll_from_bottom,
                timeline_revision: bump(o.timeline_revision),
                dirty: true,
                ..o
            })
            &&& f.auto_scroll == (o.auto_scroll || (!was_loading && now_loading))
            &&& f.scroll_from_bottom == (if f.auto_scroll {
                0int
            } else {
                o.scroll_from_bottom as int
            })
        }),
{
    if !tl_empty {
        view.show_splash = false;
    }
    if !was_loading && now_loading {
        view.auto_scroll = true;
        view.scroll_from_bottom = 0;
    }
    if view.auto_scroll {
        view.scroll_from_bottom = 0;
    }
    if view.timeline_revision < u64::MAX {
        view.timeline_revision = view.timeline_revision + 1;
    }
    view.dirty = true;
}

/// What a full-state replace leaves behind, as `update_state` promises.
pub open spec fn state_replace_post(o: App, f: App, next: ChatState) -> bool {
    &&& f == (App { state: f.state, view: f.view, pickers: f.pickers, runtime: f.runtime, ..o })
    &&& f.state == next
    &&& f.runtime == (RuntimeState { reasoning_effort: f.runtime.reasoning_effort, ..o.runtime })
    &&& (next.reasoning_effort_override matches Some(re) ==> f.runtime.reasoning_effort@ == re@)
    &&& (next.reasoning_effort_override is None ==> f.runtime.reasoning_effort
        == o.runtime.reasoning_effort)
    &&& f.pickers == (PickerState {
        history_needs_refresh: o.pickers.history_needs_refresh || o.view.mode
            == UiMode::SessionHistory,
        ..o.pickers
    })
    &&& f.view == (ViewState {
        show_splash: o.view.show_splash && next.timeline_events@.len() == 0,
        auto_scroll: f.view.auto_scroll,
        scroll_from_bottom: f.view.scroll_from_bottom,
        timeline_revision: bump(o.view.timeline_revision),
        dirty: true,
        ..o.view
    })
    &&& f.view.auto_scroll == (o.view.auto_scroll || (!o.state.is_loading && next.is_loading))
    &&& f.view.scroll_from_bottom == (if f.view.auto_scroll {
        0int
    } else {
        o.view.scroll_from_bottom as int
    })
}

/// Whether a timeline event is the result of the in-flight reindex: a tool
/// result from the code-search tool while a reindex is pending.
pub open spec fn reindex_hit(o: App, e: TimelineEvent) -> bool {
    &&& o.runtime.reindex_inflight
    &&& e.kind@ == "tool_result"@
    &&& (e.tool_name matches Some(t) && t@ == "codesearch"@)
}

/// What a timeline notification leaves behind: the upsert with its view
/// bookkeeping, plus the reindex flag cleared and a notice surfaced when
/// the event completes the in-flight reindex.
pub open spec fn timeline_post(o: App, f: App, e: TimelineEvent) -> bool {
    &&& f == (App { state: f.state, view: f.view, pickers: f.pickers, runtime: f.runtime, ..o })
    &&& f.runtime == (RuntimeState {
        reindex_inflight: o.runtime.reindex_inflight && !reindex_hit(o, e),
        ..o.runtime
    })
    &&& f.state == (ChatState { timeline_events: f.state.timeline_events, ..o.state })
    &&& f.state.timeline_events@ == upsert_spec(o.state.timeline_events@, e)
    &&& f.pickers == (PickerState {
        history_needs_refresh: o.pickers.history_needs_refresh || o.view.mode
            == UiMode::SessionHistory,
        ..o.pickers
    })
    &&& f.view == (ViewState {
        show_splash: false,
        timeline_revision: bump(o.view.timeline_revision),
        scroll_from_bottom: if o.view.auto_scroll {
            0
        } else {
            o.view.scroll_from_bottom
        },
        dirty: true,
        toast: f.view.toast,
        ..o.view
    })
    &&& (reindex_hit(o, e) ==> (f.view.toast matches Some(m) && m@ == "Reindex complete"@))
    &&& (!reindex_hit(o, e) ==> f.view.toast == o.view.toast)
}

impl App {

    /// Mark the frame dirty: the next tick redraws.
    pub fn mark_dirty(&mut self)
        ensures
            *final(self) == (App { view: final(self).view, ..*old(self) }),
            final(self).view == (ViewState { dirty: true, ..old(self).view }),
    {
        self.view.dirty = true;
    }

    /// Surface a transient notice and mark the frame dirty.
    pub fn set_toast(&mut self, msg: String)
        ensures
            *final(self) == (App { view: final(self).view, ..*old(self) }),
            final(self).view == (ViewState { dirty: true, toast: Some(msg), ..old(self).view }),
    {
        self.view.toast = Some(msg);
        self.view.dirty = true;
    }

    /// Replace the session snapshot wholesale, as a full-state notification
    /// asks: the reasoning label follows the override, the splash leaves
    /// once a timeline exists, loading pins the view to the bottom, a
    /// history browser goes stale, and the timeline revision is bumped.
    #[verifier::rlimit(100)]
    #[verifier::spinoff_prover]
    pub fn update_state(&mut self, next: ChatState)
        ensures
            state_replace_post(*old(self), *final(self), next),
            ({
                let o = *old(self);
                let f = *final(self);
                &&& f == (App {
                    state: f.state,
                    view: f.view,
                    pickers: f.pickers,
                    runtime: f.runtime,
                    ..o
                })
                &&& f.state == next
                &&& f.runtime == (RuntimeState {
                    reasoning_effort: f.runtime.reasoning_effort,
                    ..o.runtime
                })
                &&& (next.reasoning_effort_override matches Some(re) ==>
                    f.runtime.reasoning_effort@ == re@)
                &&& (next.reasoning_effort_override is None ==> f.runtime.reasoning_effort
                    == o.runtime.reasoning_effort)
                &&& f.pickers == (PickerState {
                    history_needs_refresh: o.pickers.history_needs_refresh || o.view.mode
                        == UiMode::SessionHistory,
                    ..o.pickers
                })
                &&& f.view == (ViewState {
                    show_splash: o.view.show_splash && next.timeline_events@.len() == 0,
                    auto_scroll: f.view.auto_scroll,
                    scroll_from_bottom: f.view.scroll_from_bottom,
                    timeline_revision: bump(o.view.timeline_revision),
                    dirty: true,
                    ..o.view
                })
                &&& f.view.auto_scroll == (o.view.auto_scroll || (!o.state.is_loading
                    && next.is_loading))
                &&& f.view.scroll_from_bottom == (if f.view.auto_scroll {
                    0int
                } else {
                    o.view.scroll_from_bottom as int
                })
            }),
    {
        let was_loading = self.state.is_loading;
        let now_loading = next.is_loading;
        let tl_empty = next.timeline_events.len() == 0;
        let re = clone_opt_string(&next.reasoning_effort_override);
        self.state = next;
        match re {
            Some(r2) => {
                self.runtime.reasoning_effort = r2;
            },
            None => {},
        }
        if self.view.mode == UiMode::SessionHistory {
            self.pickers.history_needs_refresh = true;
        }
        refresh_view(&mut self.view, was_loading, now_loading, tl_empty);
    }

    /// Upsert one event into the timeline (replace in place by id, else
    /// append), leave the splash, bump the revision, keep the view pinned
    /// when following, and mark a history browser stale.
    pub fn upsert_timeline(&mut self, event: TimelineEvent)
        ensures
            ({
                let o = *old(self);
                let f = *final(self);
                &&& f == (App { state: f.state, view: f.view, pickers: f.pickers, ..o })
                &&& f.state == (ChatState { timeline_events: f.state.timeline_events, ..o.state })
                &&& f.state.timeline_events@ == upsert_spec(o.state.timeline_events@, event)
                &&& f.pickers == (PickerState {
                    history_needs_refresh: o.pickers.history_needs_refresh || o.view.mode
                        == UiMode::SessionHistory,
                    ..o.pickers
                })
                &&& f.view == (ViewState {
                    show_splash: false,
                    timeline_revision: bump(o.view.timeline_revision),
                    scroll_from_bottom: if o.view.auto_scroll {
                        0
                    } else {
                        o.view.scroll_from_bottom
                    },
                    dirty: true,
                    ..o.view
                })
            }),
    {
        upsert_event(&mut self.state.timeline_events, event);
        self.view.show_splash = false;
        if self.view.timeline_revision < u64::MAX {
            self.view.timeline_revision = self.view.timeline_revision + 1;
        }
        if self.view.auto_scroll {
            self.view.scroll_from_bottom = 0;
        }
        if self.view.mode == UiMode::SessionHistory {
            self.pickers.history_needs_refresh = true;
        }
        self.view.dirty = true;
    }

    /// Upsert one incoming timeline event, clearing the in-flight reindex
    /// flag and surfacing a notice when the event is the code-search tool
    /// result that completes it.
    #[verifier::rlimit(100)]
    #[verifier::spinoff_prover]
    pub fn apply_timeline(&mut self, event: TimelineEvent)
        ensures
            timeline_post(*old(self), *final(self), event),
    {
        let is_reindex_result = self.runtime.reindex_inflight && crate::strutil::str_eq(
            event.kind.as_str(),
            "tool_result",
        ) && (match &event.tool_name {
            Some(t) => crate::strutil::str_eq(t.as_str(), "codesearch"),
            None => false,
        });
        if is_reindex_result {
            self.runtime.reindex_inflight = false;
            self.set_toast(crate::strutil::owned_str("Reindex complete"));
        }
        self.upsert_timeline(event);
    }

    /// Fold one notification into the session state: full-state replace,
    /// timeline upsert (clearing an in-flight reindex when its tool result
    /// arrives), partial token merge, context status, plan-exit proposal
    /// (only while the plan agent is active), session change, error notice;
    /// unknown methods are ignored.
    #[verifier::rlimit(100)]
    #[verifier::spinoff_prover]
    pub fn handle_notification(&mut self, notif: Notification)
        ensures
            ({
                let o = *old(self);
                let f = *final(self);
                match notif {
                    Notification::StateReplace(next) => state_replace_post(o, f, next),
                    Notification::Timeline(e) => timeline_post(o, f, e),
                    Notification::TokensUpdate { tokens, session_tokens, context_usage } => {
                        &&& f == (App { state: f.state, view: f.view, ..o })
                        &&& f.view == (ViewState { dirty: true, ..o.view })
                        &&& f.state == (ChatState {
                            tokens: f.state.tokens,
                            session_tokens: f.state.session_tokens,
                            context_usage: f.state.context_usage,
                            ..o.state
                        })
                        &&& (tokens matches Some(t) ==> f.state.tokens == t)
                        &&& (tokens is None ==> f.state.tokens == o.state.tokens)
                        &&& (session_tokens matches Some(t) ==> f.state.session_tokens == Some(
                            t,
                        ))
                        &&& (session_tokens is None ==> f.state.session_tokens
                            == o.state.session_tokens)
                        &&& (context_usage matches Some(c) ==> f.state.context_usage == c)
                        &&& (context_usage is None ==> f.state.context_usage
                            == o.state.context_usage)
                    },
                    Notification::ContextStatus(st) => {
                        &&& f == (App { state: f.state, view: f.view, ..o })
                        &&& f.view == (ViewState { dirty: true, ..o.view })
                        &&& f.state == (ChatState { context_status: Some(st), ..o.state })
                    },
                    Notification::PlanExitProposed(flag) => {
                        &&& f == (App { view: f.view, ..o })
                        &&& f.view == (ViewState { mode: f.view.mode, dirty: true, ..o.view })
                        &&& f.view.mode == (if flag && o.state.agent@ == "plan"@ {
                            UiMode::PlanActions
                        } else {
                            o.view.mode
                        })
                    },
                    Notification::SessionChanged(id) => {
                        &&& f == (App { state: f.state, view: f.view, pickers: f.pickers, ..o })
                        &&& f.view == (ViewState { dirty: true, ..o.view })
                        &&& f.state == (ChatState { session_id: Some(id), ..o.state })
                        &&& f.pickers == (PickerState {
                            history_needs_refresh: o.pickers.history_needs_refresh || o.view.mode
                                == UiMode::SessionHistory,
                            ..o.pickers
                        })
                    },
                    Notification::ErrorNotice(s) => {
                        &&& f == (App { view: f.view, ..o })
                        &&& f.view == (ViewState { dirty: true, toast: Some(s), ..o.view })
                    },
                    Notification::Unknown => f == o,
                }
            }),
    {
        match notif {
            Notification::StateReplace(next) => {
                self.update_state(next);
            },
            Notification::Timeline(event) => {
                self.apply_timeline(event);
            },
            Notification::TokensUpdate { tokens, session_tokens, context_usage } => {
                match tokens {
                    Some(t) => {
                        self.state.tokens = t;
                    },
                    None => {},
                }
                match session_tokens {
                    Some(t) => {
                        self.state.session_tokens = Some(t);
                    },
                    None => {},
                }
                match context_usage {
                    Some(c) => {
                        self.state.context_usage = c;
                    },
                    None => {},
                }
                self.view.dirty = true;
            },
            Notification::ContextStatus(st) => {
                self.state.context_status = Some(st);
                self.view.dirty = true;
            },
            Notification::PlanExitProposed(flag) => {
                if flag && crate::strutil::str_eq(self.state.agent.as_str(), "plan") {
                    self.view.mode = UiMode::PlanActions;
                }
                self.view.dirty = true;
            },
            Notification::SessionChanged(id) => {
                self.state.session_id = Some(id);
                if self.view.mode == UiMode::SessionHistory {
                    self.pickers.history_needs_refresh = true;
                }
                self.view.dirty = true;
            },
            Notification::ErrorNotice(s) => {
                self.set_toast(s);
            },
            Notification::Unknown => {},
        }
    }
}


/// One remote call a decision step asks the transport to perform. The
/// event loop performs it and feeds any result back through the matching
/// completion function.
pub enum CallSpec {
    /// Clear the conversation.
    Clear,
    /// Fetch the stored session list; on success the history browser opens
    /// through `App::enter_session_history`.
    ListSessions,
    /// Select the named agent.
    SetAgent(String),
    /// Start a reindex through the code-search tool.
    ExecuteReindex,
    /// Fetch the todo list.
    ListTodos,
    /// Revert files through the revert tool.
    ExecuteRevert,
    /// Fetch the model list; on success the model picker opens through
    /// `App::enter_model_picker`.
    ListModels,
    /// Ask the worker to stop the running request; advisory only.
    Abort,
    /// Send the typed message with its attachments.
    SendMessage {
        /// The submission text, sentinels stripped.
        content: String,
        /// The pending attachments, in marker order.
        attachments: Vec<crate::buffer::AttachmentUpload>,
    },
    /// Select the named reasoning effort.
    SetReasoningEffort(String),
    /// Open the stored session with this id.
    LoadSession(String),
    /// Delete the stored session with this id.
    DeleteSession(String),
    /// Rename the stored session with this id.
    RenameSession {
        /// Session identifier.
        id: String,
        /// The new title.
        title: String,
    },
    /// Answer the pending question with this id.
    AnswerQuestion {
        /// Question record identifier.
        id: String,
        /// The chosen answers, in option order.
        answers: Vec<String>,
    },
    /// Approve the proposed plan and switch to building.
    ApprovePlan,
}

/// What a committed palette command leaves behind and asks for, by its
/// action tag.
pub open spec fn command_step_post(o: App, f: App, action: Seq<char>, calls: Seq<CallSpec>) -> bool {
    if action == "session:new"@ || action == "session:clear"@ {
        &&& f == (App { buffer: f.buffer, view: f.view, ..o })
        &&& f.buffer.text@ == Seq::<char>::empty()
        &&& f.buffer.cursor == 0
        &&& f.buffer.attachments@.len() == 0
        &&& f.view == (ViewState { show_splash: true, needs_clear: true, dirty: true, ..o.view })
        &&& calls.len() == 1 && calls[0] is Clear
    } else if action == "session:history"@ {
        &&& f == (App { view: f.view, ..o })
        &&& f.view == (ViewState { dirty: true, ..o.view })
        &&& calls.len() == 1 && calls[0] is ListSessions
    } else if action == "mode:plan"@ {
        &&& f == (App { state: f.state, view: f.view, ..o })
        &&& f.state == (ChatState { agent: f.state.agent, ..o.state })
        &&& f.state.agent@ == "plan"@
        &&& f.view == (ViewState { dirty: true, ..o.view })
        &&& calls.len() == 1 && (calls[0] matches CallSpec::SetAgent(a) && a@ == "plan"@)
    } else if action == "mode:build"@ {
        &&& f == (App { state: f.state, view: f.view, ..o })
        &&& f.state == (ChatState { agent: f.state.agent, ..o.state })
        &&& f.state.agent@ == "build"@
        &&& f.view == (ViewState { dirty: true, ..o.view })
        &&& calls.len() == 1 && (calls[0] matches CallSpec::SetAgent(a) && a@ == "build"@)
    } else if action == "tool:reindex"@ {
        &&& f == (App { pickers: f.pickers, runtime: f.runtime, view: f.view, ..o })
        &&& f.pickers == (PickerState { file_index: f.pickers.file_index, ..o.pickers })
        &&& f.pickers.file_index@.len() == 0
        &&& f.runtime == (RuntimeState { reindex_inflight: true, ..o.runtime })
        &&& f.view == (ViewState { dirty: true, toast: f.view.toast, ..o.view })
        &&& (f.view.toast matches Some(m) && m@ == "Reindexing..."@)
        &&& calls.len() == 1 && calls[0] is ExecuteReindex
    } else if action == "tool:todos"@ {
        &&& f == (App { pickers: f.pickers, view: f.view, ..o })
        &&& f.pickers == (PickerState { todos_expanded: !o.pickers.todos_expanded, ..o.pickers })
        &&& f.view == (ViewState { dirty: true, ..o.view })
        &&& calls.len() == 1 && calls[0] is ListTodos
    } else if action == "tool:revert"@ {
        &&& f == (App { view: f.view, ..o })
        &&& f.view == (ViewState { dirty: true, ..o.view })
        &&& calls.len() == 1 && calls[0] is ExecuteRevert
    } else if action == "settings:model"@ {
        &&& f == (App { view: f.view, ..o })
        &&& f.view == (ViewState { dirty: true, ..o.view })
        &&& calls.len() == 1 && calls[0] is ListModels
    } else if action == "help:about"@ {
        &&& f == (App { view: f.view, ..o })
        &&& f.view == (ViewState { mode: UiMode::HelpAbout, dirty: true, ..o.view })
        &&& calls.len() == 0
    } else {
        &&& f == (App { view: f.view, ..o })
        &&& f.view == (ViewState { dirty: true, ..o.view })
        &&& calls.len() == 0
    }
}

impl App {
    /// Commit one palette command: apply its state changes and hand back
    /// the remote calls the event loop must perform. Pickers that need
    /// remote data (model list, session history) are entered only through
    /// their completion functions, never pre-emptively.
    #[verifier::rlimit(100)]
    #[verifier::spinoff_prover]
    pub fn command_step(&mut self, cmd: &crate::commands::CommandItem) -> (calls: Vec<CallSpec>)
        ensures
            command_step_post(*old(self), *final(self), cmd.action@, calls@),
    {
        let mut calls: Vec<CallSpec> = Vec::new();
        if crate::strutil::str_eq(cmd.action, "session:new") || crate::strutil::str_eq(
            cmd.action,
            "session:clear",
        ) {
            self.buffer.clear();
            self.view.show_splash = true;
            self.view.needs_clear = true;
            calls.push(CallSpec::Clear);
            proof {
                assert(calls@ =~= seq![CallSpec::Clear]);
            }
        } else if crate::strutil::str_eq(cmd.action, "session:history") {
            calls.push(CallSpec::ListSessions);
        } else if crate::strutil::str_eq(cmd.action, "mode:plan") {
            self.state.agent = crate::strutil::owned_str("plan");
            calls.push(CallSpec::SetAgent(crate::strutil::owned_str("plan")));
        } else if crate::strutil::str_eq(cmd.action, "mode:build") {
            self.state.agent = crate::strutil::owned_str("build");
            calls.push(CallSpec::SetAgent(crate::strutil::owned_str("build")));
        } else if crate::strutil::str_eq(cmd.action, "tool:reindex") {
            self.pickers.file_index = Vec::new();
            self.runtime.reindex_inflight = true;
            self.view.toast = Some(crate::strutil::owned_str("Reindexing..."));
            calls.push(CallSpec::ExecuteReindex);
        } else if crate::strutil::str_eq(cmd.action, "tool:todos") {
            self.pickers.todos_expanded = !self.pickers.todos_expanded;
            calls.push(CallSpec::ListTodos);
        } else if crate::strutil::str_eq(cmd.action, "tool:revert") {
            calls.push(CallSpec::ExecuteRevert);
        } else if crate::strutil::str_eq(cmd.action, "settings:model") {
            calls.push(CallSpec::ListModels);
        } else if crate::strutil::str_eq(cmd.action, "help:about") {
            self.view.mode = UiMode::HelpAbout;
        }
        self.view.dirty = true;
        calls
    }

    /// Open the history browser once the session list has arrived: the
    /// list is taken as is, the selection starts at the top, and the mode
    /// switches to the browser.
    #[verifier::rlimit(100)]
    #[verifier::spinoff_prover]
    pub fn enter_session_history(&mut self, list: Vec<SessionInfo>)
        ensures
            *final(self) == (App { pickers: final(self).pickers, view: final(self).view, ..*old(
                self,
            ) }),
            final(self).pickers == (PickerState {
                session_list: list,
                session_selected: 0,
                ..old(self).pickers
            }),
            final(self).view == (ViewState { mode: UiMode::SessionHistory, dirty: true, ..old(
                self,
            ).view }),
    {
        self.pickers.session_list = list;
        self.pickers.session_selected = 0;
        self.view.mode = UiMode::SessionHistory;
        self.view.dirty = true;
    }

    /// Open the model picker once the model list has arrived: the entries
    /// are taken as is, the query and paging reset, and the mode switches
    /// to the picker.
    #[verifier::rlimit(100)]
    #[verifier::spinoff_prover]
    pub fn enter_model_picker(&mut self, entries: Vec<crate::commands::ModelEntry>)
        ensures
            *final(self) == (App { pickers: final(self).pickers, view: final(self).view, ..*old(
                self,
            ) }),
            final(self).pickers == (PickerState {
                model_entries: entries,
                model_query: final(self).pickers.model_query,
                model_selected: 0,
                model_offset: 0,
                ..old(self).pickers
            }),
            final(self).pickers.model_query@ == Seq::<char>::empty(),
            final(self).view == (ViewState { mode: UiMode::ModelPicker, dirty: true, ..old(
                self,
            ).view }),
    {
        self.pickers.model_entries = entries;
        self.pickers.model_query = String::new();
        self.pickers.model_selected = 0;
        self.pickers.model_offset = 0;
        self.view.mode = UiMode::ModelPicker;
        self.view.dirty = true;
    }
}

} // verus!
