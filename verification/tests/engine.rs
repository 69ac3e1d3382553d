use stratuscode::buffer::EditableBuffer;
use stratuscode::commands::{
    commands_list, filter_commands, filter_models, parse_command, sort_models_by_provider,
    ModelEntry,
};
use stratuscode::diff::{parse_diff, tool_icon, truncate_text, DiffKind, format_number};
use stratuscode::display::{compute_cursor_position, compute_display_input_with_cursor};
use stratuscode::editor::{cursor_left, cursor_right, clamp_cursor, handle_backspace, insert_paste, strip_sentinels};
use stratuscode::files::{file_query_from_input, filter_files};
use stratuscode::render::{layout_heights, RenderCache};
use stratuscode::state::FileResult;
use stratuscode::protocol::PendingTable;
use stratuscode::keys::KeyInput;
use stratuscode::state::{find_event, upsert_event, CallSpec, ContextUsage, QuestionOption, QuestionState, SessionInfo, TimelineEvent, TokenUsage, UiMode};
use stratuscode::{IMAGE_MARKER, PASTE_END, PASTE_START};

fn model(id: &str, name: &str, group: &str) -> ModelEntry {
    ModelEntry {
        id: id.to_string(),
        name: name.to_string(),
        free: None,
        provider_key: None,
        group: group.to_string(),
        reasoning: None,
    }
}

fn event(id: &str, kind: &str, content: &str) -> TimelineEvent {
    TimelineEvent {
        id: id.to_string(),
        session_id: "s".to_string(),
        created_at: 0,
        kind: kind.to_string(),
        content: content.to_string(),
        tokens: None,
        streaming: None,
        tool_call_id: None,
        tool_name: None,
        status: None,
        attachments: None,
    }
}

#[test]
fn filter_commands_query_h() {
    let cs = commands_list();
    let hits = filter_commands(&cs, "h");
    assert!(hits.iter().any(|c| c.name == "history"));
    // assert on the documented match rule: every hit matches by substring on
    // the name, the shortcut, or the description, ignoring case
    for c in &hits {
        let by_rule = c.name.contains('h') || c.shortcut.map(|s| s.contains('h')).unwrap_or(
            false,
        ) || c.description.to_lowercase().contains('h');
        assert!(by_rule);
    }
    // substring, not prefix: a query inside a name still matches
    assert!(filter_commands(&cs, "odos").iter().any(|c| c.name == "todos"));
    assert!(filter_commands(&cs, "istory").iter().any(|c| c.name == "history"));
    assert!(!hits.iter().any(|c| c.name == "plan"));
}

#[test]
fn filter_commands_blank_keeps_all() {
    let cs = commands_list();
    let hits = filter_commands(&cs, "   ");
    assert_eq!(hits.len(), 10);
}

#[test]
fn parse_command_name_and_shortcut() {
    let (c, arg) = parse_command("/history").unwrap();
    assert_eq!(c.action, "session:history");
    assert_eq!(arg, None);
    let (c2, arg2) = parse_command("/h stuff here").unwrap();
    assert_eq!(c2.action, "session:history");
    assert_eq!(arg2.as_deref(), Some("stuff here"));
    assert!(parse_command("history").is_none());
    assert!(parse_command("/nosuch").is_none());
}

#[test]
fn models_sorted_by_provider_group() {
    let entries = vec![
        model("m1", "zeta", "anthropic"),
        model("m2", "alpha", "openai"),
        model("m3", "beta", "anthropic"),
        model("m4", "omega", "openai"),
    ];
    let sorted = sort_models_by_provider(&entries);
    let names: Vec<&str> = sorted.iter().map(|e| e.name.as_str()).collect();
    assert_eq!(names, vec!["alpha", "omega", "beta", "zeta"]);
}

#[test]
fn models_filtered_by_substring() {
    let entries = vec![model("gpt", "Big Model", "openai"), model("x", "Tiny", "other")];
    let hits = filter_models(&entries, "big");
    assert_eq!(hits.len(), 1);
    assert_eq!(hits[0].id, "gpt");
}

#[test]
fn upsert_replaces_in_place() {
    let mut tl = Vec::new();
    upsert_event(&mut tl, event("a", "user", "one"));
    upsert_event(&mut tl, event("b", "assistant", "two"));
    upsert_event(&mut tl, event("a", "user", "one again"));
    assert_eq!(tl.len(), 2);
    assert_eq!(tl[0].content, "one again");
    assert_eq!(tl[1].content, "two");
    let _ = find_event; // the spec the test exercises
}

#[test]
fn replies_route_by_id() {
    let mut table: PendingTable<&str> = PendingTable::new();
    let first = table.register("first");
    let second = table.register("second");
    assert_ne!(first, second);
    // replies arrive out of send order
    assert_eq!(table.resolve(second), Some("second"));
    assert_eq!(table.resolve(first), Some("first"));
    assert_eq!(table.resolve(first), None);
}

#[test]
fn diff_counts_and_counters() {
    let payload = "--- a\n+++ b\n@@ -3,2 +7,3 @@\n ctx\n+added one\n+added two\n-removed\n";
    let (lines, adds, dels) = parse_diff(payload);
    assert_eq!(adds, 2);
    assert_eq!(dels, 1);
    let added: Vec<_> = lines.iter().filter(|l| l.kind == DiffKind::Add).collect();
    let removed: Vec<_> = lines.iter().filter(|l| l.kind == DiffKind::Remove).collect();
    assert_eq!(added.len(), 2);
    assert_eq!(removed.len(), 1);
    // counters start at the hunk header's values and run independently
    assert_eq!(added[0].new_line, Some(8));
    assert_eq!(added[1].new_line, Some(9));
    assert_eq!(removed[0].old_line, Some(4));
    assert_eq!(lines[3].old_line, Some(3));
    assert_eq!(lines[3].new_line, Some(7));
}

#[test]
fn paste_region_round_trip() {
    let mut buf = EditableBuffer::new();
    buf.insert_char('a');
    buf.insert_char('b');
    let before_text = buf.text.clone();
    let before_cursor = buf.cursor;
    let big = "line one\nline two\nline three\nline four";
    buf.insert_paste(big);
    assert!(buf.text.contains(PASTE_START));
    assert!(buf.text.contains(PASTE_END));
    assert!(buf.backspace());
    assert_eq!(buf.text, before_text);
    assert_eq!(buf.cursor, before_cursor);
}

#[test]
fn small_paste_spliced_raw() {
    let mut buf = EditableBuffer::new();
    buf.insert_paste("tiny");
    assert_eq!(buf.text, "tiny");
    assert!(!buf.text.contains(PASTE_START));
}

#[test]
fn markers_match_attachments() {
    let mut buf = EditableBuffer::new();
    buf.insert_char('x');
    buf.attach_image("data0".to_string(), "image/png".to_string());
    buf.insert_char('y');
    buf.attach_image("data1".to_string(), "image/png".to_string());
    assert_eq!(buf.text.chars().filter(|&c| c == IMAGE_MARKER).count(), 2);
    assert_eq!(buf.attachments.len(), 2);
    // deleting the marker before the cursor drops the matching attachment
    assert!(buf.backspace());
    assert_eq!(buf.text.chars().filter(|&c| c == IMAGE_MARKER).count(), 1);
    assert_eq!(buf.attachments.len(), 1);
    assert_eq!(buf.attachments[0].data, "data0");
}

#[test]
fn submission_strips_sentinels() {
    let mut buf = EditableBuffer::new();
    buf.insert_char('a');
    buf.insert_paste("one\ntwo\nthree\nfour");
    buf.insert_char('z');
    let sent = buf.submission_text();
    assert_eq!(sent, "aone\ntwo\nthree\nfourz");
    assert_eq!(strip_sentinels("plain"), "plain");
}

#[test]
fn region_hopped_as_one_unit() {
    let mut buf = EditableBuffer::new();
    buf.insert_char('a');
    let start = buf.cursor;
    buf.insert_paste("l1\nl2\nl3\nl4");
    let end = buf.cursor;
    buf.move_left();
    assert_eq!(buf.cursor, start);
    buf.move_right();
    assert_eq!(buf.cursor, end);
    assert_eq!(cursor_left(&buf.text, end), start);
    assert_eq!(cursor_right(&buf.text, start), end);
}

#[test]
fn clamp_lands_on_boundary() {
    let s = "a\u{1F389}b";
    assert_eq!(clamp_cursor(s, 2), 1);
    assert_eq!(clamp_cursor(s, 99), s.len());
    assert_eq!(clamp_cursor(s, 5), 5);
}

#[test]
fn backspace_plain_char() {
    let r = handle_backspace("abc", 3).unwrap();
    assert_eq!(r.0, "ab");
    assert_eq!(r.1, 2);
    assert!(handle_backspace("abc", 0).is_none());
}

#[test]
fn paste_adjacent_extends_region() {
    let mut buf = EditableBuffer::new();
    buf.insert_paste("a1\na2\na3\na4");
    let one_region = buf.text.chars().filter(|&c| c == PASTE_START).count();
    buf.insert_paste("b1\nb2\nb3\nb4");
    let still_one = buf.text.chars().filter(|&c| c == PASTE_START).count();
    assert_eq!(one_region, 1);
    assert_eq!(still_one, 1);
}

#[test]
fn formatting_helpers() {
    assert_eq!(format_number(0), "0");
    assert_eq!(format_number(1234567), "1,234,567");
    assert_eq!(tool_icon("read"), "[R]");
    assert_eq!(tool_icon("bash"), "[$]");
    assert_eq!(tool_icon("nosuch"), "[*]");
    assert_eq!(truncate_text("short", 24), "short");
    let cut = truncate_text("a very long piece of text over the limit", 10);
    assert!(cut.ends_with('\u{2026}'));
    let (text, cursor) = insert_paste("xy", 1, "mid");
    assert_eq!(text, "xmidy");
    assert_eq!(cursor, 4);
}

#[test]
fn display_projection_regions_and_markers() {
    let mut buf = EditableBuffer::new();
    buf.insert_char('a');
    buf.insert_paste("l1\nl2\nl3\nl4");
    buf.insert_char('b');
    buf.attach_image("d".to_string(), "image/png".to_string());
    let (display, caret) = compute_display_input_with_cursor(&buf.text, buf.cursor);
    assert_eq!(display, "a [Pasted ~4 lines] b [Image]");
    assert!(!display.contains(PASTE_START));
    assert!(!display.contains(PASTE_END));
    assert!(!display.contains(IMAGE_MARKER));
    assert_eq!(caret, display.chars().count());
}

#[test]
fn display_projection_plain_text() {
    let (display, caret) = compute_display_input_with_cursor("h\u{4E16}llo", 4);
    assert_eq!(display, "h\u{4E16}llo");
    assert_eq!(caret, 2);
}

#[test]
fn display_projection_small_paste_inline() {
    // a region whose text is below the threshold is shown inline,
    // newlines as spaces
    let text = format!("{}one\ntwo{}", PASTE_START, PASTE_END);
    let (display, _) = compute_display_input_with_cursor(&text, 0);
    assert_eq!(display, "one two");
}

#[test]
fn cursor_position_wraps() {
    assert_eq!(compute_cursor_position("abcdef", 5, 3), (1, 2));
    assert_eq!(compute_cursor_position("ab\ncd", 4, 10), (1, 1));
    assert_eq!(compute_cursor_position("ab", 99, 10), (0, 2));
}

#[test]
fn file_picker_filters_and_query() {
    let index = vec![
        FileResult { relative_path: "src/main.rs".to_string(), is_dir: false },
        FileResult { relative_path: "README.md".to_string(), is_dir: false },
        FileResult { relative_path: "src".to_string(), is_dir: true },
    ];
    let hits = filter_files(&index, "SRC", 10);
    assert_eq!(hits.len(), 2);
    assert_eq!(hits[0].relative_path, "src/main.rs");
    let capped = filter_files(&index, "", 2);
    assert_eq!(capped.len(), 2);
    assert_eq!(file_query_from_input("hello @src/ma more", 10), "src");
    assert_eq!(file_query_from_input("no mention", 5), "");
}

#[test]
fn render_cache_gate() {
    let mut cache = RenderCache::new();
    cache.store(7, 80, false, vec!["line".to_string()]);
    assert!(cache.lookup(7, 80, false, false));
    assert!(!cache.lookup(7, 80, false, true));
    assert!(!cache.lookup(8, 80, false, false));
    assert!(!cache.lookup(7, 81, false, false));
    assert!(!cache.lookup(7, 80, true, false));
}

#[test]
fn layout_shrinks_in_priority_order() {
    // everything fits: nothing shrinks
    assert_eq!(layout_heights(20, 2, 3, 6, 4, 3), (3, 6, 3));
    // todo strip shrinks first
    assert_eq!(layout_heights(12, 2, 3, 6, 4, 3), (1, 6, 3));
    // then the overlay, down to its minimum
    assert_eq!(layout_heights(10, 2, 3, 6, 4, 3), (0, 5, 3));
    // then the input, down to one row; status never shrinks
    assert_eq!(layout_heights(7, 2, 3, 6, 4, 3), (0, 4, 1));
}

#[test]
fn key_step_enter_sends_stripped_text() {
    let mut app = test_app();
    app.key_step(KeyInput::Char('h'));
    app.key_step(KeyInput::Char('i'));
    let calls = app.key_step(KeyInput::Enter);
    assert_eq!(calls.len(), 1);
    match &calls[0] {
        CallSpec::SendMessage { content, attachments } => {
            assert_eq!(content, "hi");
            assert!(attachments.is_empty());
        },
        _ => panic!("expected a send call"),
    }
    assert!(app.buffer.text.is_empty());
    assert_eq!(app.buffer.cursor, 0);
}

#[test]
fn key_step_escape_aborts_while_loading() {
    let mut app = test_app();
    app.state.is_loading = true;
    app.view.mode = UiMode::ModelPicker;
    let calls = app.key_step(KeyInput::Esc);
    assert!(matches!(calls[..], [CallSpec::Abort]));
    assert_eq!(app.view.mode, UiMode::Normal);
    app.state.is_loading = false;
    let calls2 = app.key_step(KeyInput::Esc);
    assert!(calls2.is_empty());
}

#[test]
fn key_step_slash_opens_palette() {
    let mut app = test_app();
    let calls = app.key_step(KeyInput::Char('/'));
    assert!(calls.is_empty());
    assert_eq!(app.view.mode, UiMode::CommandPalette);
    assert!(app.buffer.text.is_empty());
}

#[test]
fn key_step_mention_opens_file_picker() {
    let mut app = test_app();
    app.key_step(KeyInput::Char('s'));
    app.key_step(KeyInput::Char('@'));
    assert_eq!(app.view.mode, UiMode::FileMention);
    assert_eq!(app.buffer.text, "s@");
}

#[test]
fn key_step_reasoning_cycle() {
    let mut app = test_app();
    let calls = app.key_step(KeyInput::Ctrl('r'));
    assert_eq!(app.runtime.reasoning_effort, "low");
    assert!(matches!(&calls[..], [CallSpec::SetReasoningEffort(e)] if e == "low"));
    app.key_step(KeyInput::Ctrl('r'));
    app.key_step(KeyInput::Ctrl('r'));
    app.key_step(KeyInput::Ctrl('r'));
    assert_eq!(app.runtime.reasoning_effort, "off");
}

#[test]
fn command_step_clears_session() {
    let cs = commands_list();
    let new_cmd = cs.iter().find(|c| c.name == "new").copied().unwrap();
    let mut app = test_app();
    app.key_step(stratuscode::keys::KeyInput::Char('x'));
    let calls = app.command_step(&new_cmd);
    assert!(matches!(calls[..], [CallSpec::Clear]));
    assert!(app.buffer.text.is_empty());
    assert!(app.view.show_splash);
}

fn test_app() -> stratuscode::state::App {
    stratuscode::state::App {
        state: stratuscode::state::ChatState {
            is_loading: false,
            error: None,
            timeline_events: Vec::new(),
            session_tokens: None,
            context_usage: ContextUsage { used: 0, limit: 0, percent: 0 },
            context_status: None,
            tokens: TokenUsage { input: 0, output: 0, context: None, model: None },
            session_id: None,
            plan_exit_proposed: false,
            agent: "build".to_string(),
            model_override: None,
            provider_override: None,
            reasoning_effort_override: None,
        },
        buffer: EditableBuffer::new(),
        view: stratuscode::state::ViewState {
            mode: UiMode::Normal,
            show_splash: true,
            compact_view: false,
            scroll_from_bottom: 0,
            auto_scroll: true,
            dirty: false,
            needs_clear: false,
            timeline_revision: 0,
            spinner_index: 0,
            toast: None,
            show_telemetry_details: false,
        },
        pickers: stratuscode::state::PickerState {
            command_query: String::new(),
            command_selected: 0,
            command_offset: 0,
            file_selected: 0,
            model_query: String::new(),
            model_selected: 0,
            model_offset: 0,
            model_entries: Vec::new(),
            custom_model_mode: false,
            custom_model_input: String::new(),
            session_list: Vec::new(),
            session_selected: 0,
            session_offset: 0,
            session_rename_active: false,
            session_rename_input: String::new(),
            history_needs_refresh: false,
            question: None,
            todos: Vec::new(),
            todo_counts: stratuscode::state::TodoCounts { pending: 0, in_progress: 0, completed: 0, total: 0 },
            todos_expanded: false,
            file_index: Vec::new(),
        },
        runtime: stratuscode::state::RuntimeState {
            should_quit: false,
            reasoning_effort: "off".to_string(),
            project_dir: ".".to_string(),
            base_model: "default".to_string(),
            pending_gg: false,
            todos_request_inflight: false,
            question_request_inflight: false,
            reindex_inflight: false,
        },
    }
}

#[test]
fn display_projection_single_marker() {
    let mut buf = EditableBuffer::new();
    buf.attach_image("d".to_string(), "image/png".to_string());
    let (display, _) = compute_display_input_with_cursor(&buf.text, buf.cursor);
    assert_eq!(display, "[Image]");
}

#[test]
fn paste_cursor_lands_outside() {
    let mut buf = EditableBuffer::new();
    buf.insert_paste("l1\nl2\nl3\nl4");
    // the cursor sits just past the end sentinel of the fresh region
    assert_eq!(buf.cursor, buf.text.len());
    let before_end = buf.cursor;
    buf.move_left();
    let region_start = buf.cursor;
    // pasting again just before the region extends it and the cursor ends
    // past the region's end sentinel again
    buf.insert_paste("m1\nm2\nm3\nm4");
    assert_eq!(buf.text.chars().filter(|&c| c == PASTE_START).count(), 1);
    assert_eq!(buf.cursor, buf.text.len());
    let _ = (before_end, region_start);
}

#[test]
fn about_command_opens_help() {
    let cs = commands_list();
    let about = cs.iter().find(|c| c.name == "about").copied().unwrap();
    let mut app = test_app();
    let calls = app.command_step(&about);
    assert!(calls.is_empty());
    assert_eq!(app.view.mode, UiMode::HelpAbout);
}

#[test]
fn session_browser_steps() {
    let mut app = test_app();
    app.pickers.session_list = vec![
        SessionInfo { id: "s1".to_string(), title: "first".to_string(), message_count: None, first_message: None },
        SessionInfo { id: "s2".to_string(), title: "second".to_string(), message_count: None, first_message: None },
    ];
    app.view.mode = UiMode::SessionHistory;
    app.session_history_step(KeyInput::Down);
    assert_eq!(app.pickers.session_selected, 1);
    // delete the selected session: one call against its id, list shrinks
    let calls = app.session_history_step(KeyInput::Char('d'));
    assert!(matches!(&calls[..], [CallSpec::DeleteSession(id)] if id == "s2"));
    assert_eq!(app.pickers.session_list.len(), 1);
    assert!(app.pickers.history_needs_refresh);
    assert_eq!(app.pickers.session_selected, 0);
    // rename flow: r opens the editor seeded with the title
    app.session_history_step(KeyInput::Char('r'));
    assert!(app.pickers.session_rename_active);
    assert_eq!(app.pickers.session_rename_input, "first");
    app.session_history_step(KeyInput::Char('!'));
    let calls = app.session_history_step(KeyInput::Enter);
    assert!(matches!(&calls[..], [CallSpec::RenameSession { id, title }] if id == "s1" && title == "first!"));
    assert_eq!(app.pickers.session_list[0].title, "first!");
    assert!(!app.pickers.session_rename_active);
    // enter opens the selected session and leaves the browser
    let calls = app.session_history_step(KeyInput::Enter);
    assert!(matches!(&calls[..], [CallSpec::LoadSession(id)] if id == "s1"));
    assert_eq!(app.view.mode, UiMode::Normal);
}

#[test]
fn question_prompt_steps() {
    let mut app = test_app();
    app.pickers.question = Some(QuestionState {
        id: "q1".to_string(),
        question: "Pick some".to_string(),
        header: None,
        options: vec![
            QuestionOption { label: "alpha".to_string(), description: None },
            QuestionOption { label: "beta".to_string(), description: None },
        ],
        allow_multiple: true,
        allow_custom: false,
        selected: vec![true, false],
        focused_index: 0,
        custom_input: String::new(),
        custom_active: false,
    });
    app.view.mode = UiMode::QuestionPrompt;
    app.question_step(KeyInput::Down);
    app.question_step(KeyInput::Char(' '));
    let calls = app.question_step(KeyInput::Enter);
    assert!(matches!(&calls[..], [CallSpec::AnswerQuestion { id, answers }]
        if id == "q1" && answers == &vec!["alpha".to_string(), "beta".to_string()]));
    assert!(app.pickers.question.is_none());
    assert_eq!(app.view.mode, UiMode::Normal);
}

#[test]
fn plan_and_help_steps() {
    let mut app = test_app();
    app.view.mode = UiMode::PlanActions;
    let calls = app.plan_step(KeyInput::Enter);
    assert!(matches!(calls[..], [CallSpec::ApprovePlan]));
    assert_eq!(app.view.mode, UiMode::Normal);
    app.view.mode = UiMode::HelpAbout;
    app.help_step(KeyInput::Char('x'));
    assert_eq!(app.view.mode, UiMode::HelpAbout);
    app.help_step(KeyInput::Enter);
    assert_eq!(app.view.mode, UiMode::Normal);
}

#[test]
fn palette_steps() {
    let mut app = test_app();
    app.key_step(KeyInput::Char('/'));
    assert_eq!(app.view.mode, UiMode::CommandPalette);
    // typing narrows the list and resets the selection
    app.palette_step(KeyInput::Char('h'));
    app.palette_step(KeyInput::Char('i'));
    assert_eq!(app.pickers.command_query, "hi");
    assert_eq!(app.pickers.command_selected, 0);
    app.palette_step(KeyInput::Backspace);
    assert_eq!(app.pickers.command_query, "h");
    // committing the selected command runs its step and closes the palette
    let hits = filter_commands(&commands_list(), "h");
    assert_eq!(hits[0].name, "history");
    let calls = app.palette_step(KeyInput::Enter);
    assert!(matches!(calls[..], [CallSpec::ListSessions]));
    assert_eq!(app.view.mode, UiMode::Normal);
    assert_eq!(app.pickers.command_query, "");
}
