//! The normal-mode key machine: one step maps a key to the state changes
//! and remote calls it asks for. The host program converts terminal events
//! into `KeyInput` values, performs the returned calls, and routes overlay
//! keys to the overlay substate while a picker is active.
use vstd::prelude::*;

verus! {

use vstd::utf8::encode_utf8;
use vstd::utf8::encode_scalar;
use crate::buffer::EditableBuffer;
use crate::state::App;
use crate::state::CallSpec;
use crate::state::ChatState;
use crate::state::QuestionState;
use crate::state::SessionInfo;
use crate::state::PickerState;
use crate::state::RuntimeState;
use crate::state::UiMode;
use crate::state::ViewState;
use crate::strutil::trimmed;

/// One key event, as plain values. Modified characters other than the
/// control chords below never reach the step function.
#[derive(Clone, Copy, Debug)]
pub enum KeyInput {
    /// Escape.
    Esc,
    /// Enter.
    Enter,
    /// Backspace.
    Backspace,
    /// Left arrow.
    Left,
    /// Right arrow.
    Right,
    /// Up arrow.
    Up,
    /// Down arrow.
    Down,
    /// Page up.
    PageUp,
    /// Page down.
    PageDown,
    /// Tab.
    Tab,
    /// Home.
    Home,
    /// End.
    End,
    /// An unmodified character.
    Char(char),
    /// A control chord.
    Ctrl(char),
}

/// A counter moved without leaving the machine range.
pub open spec fn sat_add(v: int, d: int) -> int {
    if v + d > usize::MAX {
        usize::MAX as int
    } else {
        v + d
    }
}

/// A counter lowered without leaving the machine range.
pub open spec fn sat_sub(v: int, d: int) -> int {
    if v - d < 0 {
        0
    } else {
        v - d
    }
}

/// The reasoning effort after one cycle step.
pub open spec fn next_effort(cur: Seq<char>) -> Seq<char> {
    if cur == "off"@ {
        "low"@
    } else if cur == "low"@ {
        "medium"@
    } else if cur == "medium"@ {
        "high"@
    } else {
        "off"@
    }
}

/// What one scroll key leaves behind when the buffer is empty: the scroll
/// offset moves and following-the-bottom is kept exactly at offset zero.
pub open spec fn scroll_post(o: App, f: App, offset: int, auto: bool) -> bool {
    &&& f == (App { view: f.view, ..o })
    &&& f.view == (ViewState {
        scroll_from_bottom: f.view.scroll_from_bottom,
        auto_scroll: auto,
        dirty: true,
        ..o.view
    })
    &&& f.view.scroll_from_bottom as int == offset
}

/// What one control chord leaves behind and asks for.
pub open spec fn ctrl_post(o: App, f: App, c: char, calls: Seq<CallSpec>) -> bool {
    if c == 'c' {
        &&& (o.state.is_loading ==> f == o && calls.len() == 1 && calls[0] is Abort)
        &&& (!o.state.is_loading ==> f == (App { runtime: f.runtime, ..o }) && f.runtime == (
        RuntimeState { should_quit: true, ..o.runtime }) && calls.len() == 0)
    } else if c == 'i' {
        &&& f == (App { view: f.view, ..o })
        &&& f.view == (ViewState {
            show_telemetry_details: !o.view.show_telemetry_details,
            dirty: true,
            ..o.view
        })
        &&& calls.len() == 0
    } else if c == 'l' || c == 'n' {
        &&& f == (App { buffer: f.buffer, view: f.view, ..o })
        &&& f.buffer.text@ == Seq::<char>::empty()
        &&& f.buffer.cursor == 0
        &&& f.buffer.attachments@.len() == 0
        &&& f.view == (ViewState { show_splash: true, needs_clear: true, dirty: true, ..o.view })
        &&& calls.len() == 1 && calls[0] is Clear
    } else if c == 'u' {
        &&& f == (App { buffer: f.buffer, view: f.view, ..o })
        &&& f.buffer.text@ == Seq::<char>::empty()
        &&& f.buffer.cursor == 0
        &&& f.buffer.attachments@.len() == 0
        &&& f.view == (ViewState { dirty: true, ..o.view })
        &&& calls.len() == 0
    } else if c == 'a' {
        &&& f == (App { buffer: f.buffer, view: f.view, ..o })
        &&& f.buffer == (EditableBuffer { cursor: 0, ..o.buffer })
        &&& f.view == (ViewState { dirty: true, ..o.view })
        &&& calls.len() == 0
    } else if c == 'e' {
        &&& f == (App { buffer: f.buffer, view: f.view, ..o })
        &&& f.buffer == (EditableBuffer { cursor: f.buffer.cursor, ..o.buffer })
        &&& f.buffer.cursor as int == o.buffer.bytes().len()
        &&& f.view == (ViewState { dirty: true, ..o.view })
        &&& calls.len() == 0
    } else if c == 'r' {
        &&& f == (App { runtime: f.runtime, view: f.view, ..o })
        &&& f.runtime == (RuntimeState {
            reasoning_effort: f.runtime.reasoning_effort,
            ..o.runtime
        })
        &&& f.runtime.reasoning_effort@ == next_effort(o.runtime.reasoning_effort@)
        &&& f.view == (ViewState { toast: f.view.toast, dirty: true, ..o.view })
        &&& (f.view.toast matches Some(m) && m@ == "Reasoning: "@ + next_effort(
            o.runtime.reasoning_effort@,
        ))
        &&& calls.len() == 1 && (calls[0] matches CallSpec::SetReasoningEffort(e) && e@
            == next_effort(o.runtime.reasoning_effort@))
    } else if c == 't' {
        &&& f == (App { pickers: f.pickers, view: f.view, ..o })
        &&& f.pickers == (PickerState { todos_expanded: !o.pickers.todos_expanded, ..o.pickers })
        &&& f.view == (ViewState { dirty: true, ..o.view })
        &&& calls.len() == 1 && calls[0] is ListTodos
    } else {
        // clipboard images are the host program's to read (it then calls
        // the buffer's attach operation); word deletion is left out of the
        // model: cutting back to the last space can split a paste region's
        // sentinels apart, so no such operation can keep the buffer
        // invariant
        f == o && calls.len() == 0
    }
}

/// What committing the input line leaves behind: a slash command clears the
/// buffer (its action is stepped separately), a message submission hands
/// the stripped text and the pending attachments to one send call and
/// resets the buffer and view together, and a blank line does nothing.
pub open spec fn enter_post(o: App, f: App, calls: Seq<CallSpec>) -> bool {
    let traw = trimmed(o.buffer.bytes());
    let sub = crate::editor::strip_spec(o.buffer.bytes());
    if traw.len() > 0 && traw[0] == 47u8 {
        &&& f.buffer.text@ == Seq::<char>::empty()
        &&& f.buffer.cursor == 0
        &&& f.buffer.attachments@.len() == 0
        &&& f.view.dirty
    } else if traw.len() == 0 && o.buffer.attachments@.len() == 0 {
        f == o && calls.len() == 0
    } else {
        &&& calls.len() == 1
        &&& (calls[0] matches CallSpec::SendMessage { content, attachments } && encode_utf8(
            content@,
        ) == sub && attachments == o.buffer.attachments)
        &&& f == (App { buffer: f.buffer, view: f.view, ..o })
        &&& f.buffer.text@ == Seq::<char>::empty()
        &&& f.buffer.cursor == 0
        &&& f.buffer.attachments@.len() == 0
        &&& f.view == (ViewState {
            show_splash: false,
            auto_scroll: true,
            scroll_from_bottom: 0,
            dirty: true,
            ..o.view
        })
    }
}

/// What typing one ordinary character leaves behind: it is spliced at the
/// cursor, and a mention character outside a slash command opens the file
/// picker.
pub open spec fn char_post(o: App, f: App, ch: char, calls: Seq<CallSpec>) -> bool {
    let b = o.buffer.bytes();
    let c = o.buffer.cursor as int;
    let nb = b.subrange(0, c) + encode_scalar(ch as u32) + b.subrange(c, b.len() as int);
    let entering = ch == '@' && !(nb.len() > 0 && nb[0] == 47u8);
    if ch == '/' && o.buffer.text@.len() == 0 {
        // the palette opens instead of typing the slash
        &&& f == (App { view: f.view, pickers: f.pickers, ..o })
        &&& f.view == (ViewState { mode: UiMode::CommandPalette, dirty: true, ..o.view })
        &&& f.pickers == (PickerState {
            command_query: f.pickers.command_query,
            command_selected: 0,
            command_offset: 0,
            ..o.pickers
        })
        &&& f.pickers.command_query@ == Seq::<char>::empty()
        &&& calls.len() == 0
    } else {
    &&& f == (App { buffer: f.buffer, view: f.view, pickers: f.pickers, ..o })
    &&& f.buffer.bytes() == nb
    &&& f.buffer.cursor as int == c + encode_scalar(ch as u32).len()
    &&& f.buffer.attachments == o.buffer.attachments
    &&& f.view == (ViewState {
        mode: if entering {
            UiMode::FileMention
        } else {
            o.view.mode
        },
        dirty: true,
        ..o.view
    })
    &&& f.pickers == (PickerState {
        file_selected: if entering {
            0
        } else {
            o.pickers.file_selected
        },
        ..o.pickers
    })
    &&& calls.len() == 0
    }
}

/// What one normal-mode key leaves behind and asks for. Escape is globally
/// reentrant: it aborts a loading session whatever the mode and returns to
/// normal mode; any other key while an overlay is active is left to the
/// overlay's own handling.
pub open spec fn key_step_post(o: App, f: App, key: KeyInput, calls: Seq<CallSpec>) -> bool {
    if key is Esc {
        &&& f == (App { view: f.view, ..o })
        &&& f.view == (ViewState { mode: UiMode::Normal, dirty: true, ..o.view })
        &&& (o.state.is_loading ==> calls.len() == 1 && calls[0] is Abort)
        &&& (!o.state.is_loading ==> calls.len() == 0)
    } else if o.view.mode != UiMode::Normal {
        f == o && calls.len() == 0
    } else {
        match key {
            KeyInput::Ctrl(c) => ctrl_post(o, f, c, calls),
            KeyInput::Tab => {
                &&& f == (App { state: f.state, view: f.view, ..o })
                &&& f.state == (ChatState { agent: f.state.agent, ..o.state })
                &&& f.state.agent@ == (if o.state.agent@ == "build"@ {
                    "plan"@
                } else {
                    "build"@
                })
                &&& f.view == (ViewState { dirty: true, ..o.view })
                &&& calls.len() == 1 && (calls[0] matches CallSpec::SetAgent(a) && a@
                    == f.state.agent@)
            },
            KeyInput::Up => if o.buffer.text@.len() == 0 {
                scroll_post(o, f, sat_add(o.view.scroll_from_bottom as int, 1), false)
                    && calls.len() == 0
            } else {
                f == o && calls.len() == 0
            },
            KeyInput::Down => if o.buffer.text@.len() == 0 {
                scroll_post(
                    o,
                    f,
                    sat_sub(o.view.scroll_from_bottom as int, 1),
                    sat_sub(o.view.scroll_from_bottom as int, 1) == 0,
                ) && calls.len() == 0
            } else {
                f == o && calls.len() == 0
            },
            KeyInput::PageUp => if o.buffer.text@.len() == 0 {
                scroll_post(o, f, sat_add(o.view.scroll_from_bottom as int, 10), false)
                    && calls.len() == 0
            } else {
                f == o && calls.len() == 0
            },
            KeyInput::PageDown => if o.buffer.text@.len() == 0 {
                scroll_post(
                    o,
                    f,
                    sat_sub(o.view.scroll_from_bottom as int, 10),
                    sat_sub(o.view.scroll_from_bottom as int, 10) == 0,
                ) && calls.len() == 0
            } else {
                f == o && calls.len() == 0
            },
            KeyInput::Home => if o.buffer.text@.len() == 0 {
                scroll_post(o, f, usize::MAX as int, false) && calls.len() == 0
            } else {
                f == o && calls.len() == 0
            },
            KeyInput::End => if o.buffer.text@.len() == 0 {
                scroll_post(o, f, 0, true) && calls.len() == 0
            } else {
                f == o && calls.len() == 0
            },
            KeyInput::Enter => enter_post(o, f, calls),
            KeyInput::Backspace => {
                &&& f == (App { buffer: f.buffer, view: f.view, ..o })
                &&& (exists|r: bool| crate::buffer::backspace_post(o.buffer, f.buffer, r))
                &&& f.view == (ViewState { dirty: true, ..o.view })
                &&& calls.len() == 0
            },
            KeyInput::Left => {
                &&& f == (App { buffer: f.buffer, view: f.view, ..o })
                &&& f.buffer == (EditableBuffer { cursor: f.buffer.cursor, ..o.buffer })
                &&& f.buffer.cursor as int == crate::editor::spec_cursor_left(
                    o.buffer.bytes(),
                    o.buffer.cursor as int,
                )
                &&& f.view == (ViewState { dirty: true, ..o.view })
                &&& calls.len() == 0
            },
            KeyInput::Right => {
                &&& f == (App { buffer: f.buffer, view: f.view, ..o })
                &&& f.buffer == (EditableBuffer { cursor: f.buffer.cursor, ..o.buffer })
                &&& f.buffer.cursor as int == crate::editor::spec_cursor_right(
                    o.buffer.bytes(),
                    o.buffer.cursor as int,
                )
                &&& f.view == (ViewState { dirty: true, ..o.view })
                &&& calls.len() == 0
            },
            KeyInput::Char(c) => char_post(o, f, c, calls),
            KeyInput::Esc => true,
        }
    }
}

impl App {
    /// Step one normal-mode key: apply its state changes and hand back the
    /// remote calls the event loop must perform. Slash commands committed
    /// with Enter run their command step before the buffer clears.
    #[verifier::rlimit(100)]
    #[verifier::spinoff_prover]
    pub fn key_step(&mut self, key: KeyInput) -> (calls: Vec<CallSpec>)
        requires
            old(self).buffer.inv(),
            key matches KeyInput::Char(c) ==> c != crate::PASTE_START && c != crate::PASTE_END
                && c != crate::IMAGE_MARKER,
        ensures
            final(self).buffer.inv(),
            key_step_post(*old(self), *final(self), key, calls@),
    {
        let mut calls: Vec<CallSpec> = Vec::new();
        match key {
            KeyInput::Esc => {
                if self.state.is_loading {
                    calls.push(CallSpec::Abort);
                }
                self.view.mode = UiMode::Normal;
                self.view.dirty = true;
            },
            _ => {
                if self.view.mode != UiMode::Normal {
                    return calls;
                }
                match key {
                    KeyInput::Ctrl(c) => {
                        calls = self.ctrl_step(c);
                    },
                    KeyInput::Tab => {
                        let next = if crate::strutil::str_eq(self.state.agent.as_str(), "build") {
                            "plan"
                        } else {
                            "build"
                        };
                        self.state.agent = crate::strutil::owned_str(next);
                        self.view.dirty = true;
                        calls.push(CallSpec::SetAgent(crate::strutil::owned_str(next)));
                    },
                    KeyInput::Up => {
                        if self.buffer.text.as_str().as_bytes().len() == 0 {
                            proof {
                                lemma_empty_bytes_empty_chars(self.buffer.text@);
                            }
                            if self.view.scroll_from_bottom < usize::MAX {
                                self.view.scroll_from_bottom = self.view.scroll_from_bottom + 1;
                            }
                            self.view.auto_scroll = false;
                            self.view.dirty = true;
                        } else {
                            proof {
                                lemma_nonempty_bytes_nonempty_chars(self.buffer.text@);
                            }
                        }
                    },
                    KeyInput::Down => {
                        if self.buffer.text.as_str().as_bytes().len() == 0 {
                            proof {
                                lemma_empty_bytes_empty_chars(self.buffer.text@);
                            }
                            if self.view.scroll_from_bottom >= 1 {
                                self.view.scroll_from_bottom = self.view.scroll_from_bottom - 1;
                            }
                            self.view.auto_scroll = self.view.scroll_from_bottom == 0;
                            self.view.dirty = true;
                        } else {
                            proof {
                                lemma_nonempty_bytes_nonempty_chars(self.buffer.text@);
                            }
                        }
                    },
                    KeyInput::PageUp => {
                        if self.buffer.text.as_str().as_bytes().len() == 0 {
                            proof {
                                lemma_empty_bytes_empty_chars(self.buffer.text@);
                            }
                            if self.view.scroll_from_bottom <= usize::MAX - 10 {
                                self.view.scroll_from_bottom = self.view.scroll_from_bottom + 10;
                            } else {
                                self.view.scroll_from_bottom = usize::MAX;
                            }
                            self.view.auto_scroll = false;
                            self.view.dirty = true;
                        } else {
                            proof {
                                lemma_nonempty_bytes_nonempty_chars(self.buffer.text@);
                            }
                        }
                    },
                    KeyInput::PageDown => {
                        if self.buffer.text.as_str().as_bytes().len() == 0 {
                            proof {
                                lemma_empty_bytes_empty_chars(self.buffer.text@);
                            }
                            if self.view.scroll_from_bottom >= 10 {
                                self.view.scroll_from_bottom = self.view.scroll_from_bottom - 10;
                            } else {
                                self.view.scroll_from_bottom = 0;
                            }
                            self.view.auto_scroll = self.view.scroll_from_bottom == 0;
                            self.view.dirty = true;
                        } else {
                            proof {
                                lemma_nonempty_bytes_nonempty_chars(self.buffer.text@);
                            }
                        }
                    },
                    KeyInput::Home => {
                        if self.buffer.text.as_str().as_bytes().len() == 0 {
                            proof {
                                lemma_empty_bytes_empty_chars(self.buffer.text@);
                            }
                            self.view.scroll_from_bottom = usize::MAX;
                            self.view.auto_scroll = false;
                            self.view.dirty = true;
                        } else {
                            proof {
                                lemma_nonempty_bytes_nonempty_chars(self.buffer.text@);
                            }
                        }
                    },
                    KeyInput::End => {
                        if self.buffer.text.as_str().as_bytes().len() == 0 {
                            proof {
                                lemma_empty_bytes_empty_chars(self.buffer.text@);
                            }
                            self.view.scroll_from_bottom = 0;
                            self.view.auto_scroll = true;
                            self.view.dirty = true;
                        } else {
                            proof {
                                lemma_nonempty_bytes_nonempty_chars(self.buffer.text@);
                            }
                        }
                    },
                    KeyInput::Enter => {
                        calls = self.enter_step();
                    },
                    KeyInput::Backspace => {
                        let r = self.buffer.backspace();
                        self.view.dirty = true;
                        proof {
                            assert(crate::buffer::backspace_post(
                                old(self).buffer,
                                self.buffer,
                                r,
                            ));
                        }
                    },
                    KeyInput::Left => {
                        self.buffer.move_left();
                        self.view.dirty = true;
                    },
                    KeyInput::Right => {
                        self.buffer.move_right();
                        self.view.dirty = true;
                    },
                    KeyInput::Char(c) => {
                        self.char_step(c);
                    },
                    KeyInput::Esc => {},
                }
            },
        }
        calls
    }
}

impl App {
    /// Step one control chord in normal mode.
    #[verifier::rlimit(100)]
    #[verifier::spinoff_prover]
    fn ctrl_step(&mut self, c: char) -> (calls: Vec<CallSpec>)
        requires
            old(self).buffer.inv(),
        ensures
            final(self).buffer.inv(),
            ctrl_post(*old(self), *final(self), c, calls@),
    {
        let mut calls: Vec<CallSpec> = Vec::new();
                if c == 'c' {
                    if self.state.is_loading {
                        calls.push(CallSpec::Abort);
                    } else {
                        self.runtime.should_quit = true;
                    }
                } else if c == 'i' {
                    self.view.show_telemetry_details = !self.view.show_telemetry_details;
                    self.view.dirty = true;
                } else if c == 'l' || c == 'n' {
                    self.buffer.clear();
                    self.view.show_splash = true;
                    self.view.needs_clear = true;
                    self.view.dirty = true;
                    calls.push(CallSpec::Clear);
                } else if c == 'u' {
                    self.buffer.clear();
                    self.view.dirty = true;
                } else if c == 'a' {
                    self.buffer.move_home();
                    self.view.dirty = true;
                } else if c == 'e' {
                    self.buffer.move_end();
                    self.view.dirty = true;
                } else if c == 'r' {
                    let next = if crate::strutil::str_eq(
                        self.runtime.reasoning_effort.as_str(),
                        "off",
                    ) {
                        "low"
                    } else if crate::strutil::str_eq(
                        self.runtime.reasoning_effort.as_str(),
                        "low",
                    ) {
                        "medium"
                    } else if crate::strutil::str_eq(
                        self.runtime.reasoning_effort.as_str(),
                        "medium",
                    ) {
                        "high"
                    } else {
                        "off"
                    };
                    self.runtime.reasoning_effort = crate::strutil::owned_str(next);
                    let mut msg = crate::strutil::owned_str("Reasoning: ");
                    vstd::string::StringExecFns::append(&mut msg, next);
                    self.view.toast = Some(msg);
                    self.view.dirty = true;
                    calls.push(
                        CallSpec::SetReasoningEffort(crate::strutil::owned_str(next)),
                    );
                } else if c == 't' {
                    self.pickers.todos_expanded = !self.pickers.todos_expanded;
                    self.view.dirty = true;
                    calls.push(CallSpec::ListTodos);
                }
        calls
    }

    /// Commit the input line in normal mode.
    #[verifier::rlimit(100)]
    #[verifier::spinoff_prover]
    fn enter_step(&mut self) -> (calls: Vec<CallSpec>)
        requires
            old(self).buffer.inv(),
        ensures
            final(self).buffer.inv(),
            enter_post(*old(self), *final(self), calls@),
    {
        let mut calls: Vec<CallSpec> = Vec::new();
                let (lo, hi) = crate::strutil::trim_range(self.buffer.text.as_str());
                let bs_first = if lo < hi {
                    self.buffer.text.as_str().as_bytes()[lo]
                } else {
                    0
                };
                if lo < hi && bs_first == 47 {
                    let t = crate::strutil::trim_owned(self.buffer.text.as_str());
                    match crate::commands::parse_command(t.as_str()) {
                        Some(pair) => {
                            let cmd_calls = self.command_step(&pair.0);
                            calls = cmd_calls;
                        },
                        None => {
                            self.view.toast = Some(
                                crate::strutil::owned_str("Unknown command"),
                            );
                        },
                    }
                    self.buffer.clear();
                    self.view.dirty = true;
                } else if lo >= hi && self.buffer.attachments.len() == 0 {
                    // a blank line with nothing attached does nothing
                } else {
                    let content = self.buffer.submission_text();
                    let mut atts: Vec<crate::buffer::AttachmentUpload> = Vec::new();
                    core::mem::swap(&mut atts, &mut self.buffer.attachments);
                    proof {
                        // swapping the attachments out keeps the
                        // buffer invariant only through the clear
                        // that follows immediately
                    }
                    calls.push(CallSpec::SendMessage { content, attachments: atts });
                    self.buffer.clear();
                    self.view.show_splash = false;
                    self.view.auto_scroll = true;
                    self.view.scroll_from_bottom = 0;
                    self.view.dirty = true;
                }
        calls
    }
}

impl App {
    /// Step one typed character in normal mode.
    #[verifier::rlimit(100)]
    #[verifier::spinoff_prover]
    fn char_step(&mut self, c: char)
        requires
            old(self).buffer.inv(),
            c != crate::PASTE_START,
            c != crate::PASTE_END,
            c != crate::IMAGE_MARKER,
        ensures
            final(self).buffer.inv(),
            char_post(*old(self), *final(self), c, Seq::<CallSpec>::empty()),
    {
                if c == '/' && self.buffer.text.as_str().as_bytes().len() == 0 {
                    proof {
                        lemma_empty_bytes_empty_chars(self.buffer.text@);
                    }
                    self.view.mode = UiMode::CommandPalette;
                    self.pickers.command_query = String::new();
                    self.pickers.command_selected = 0;
                    self.pickers.command_offset = 0;
                    self.view.dirty = true;
                } else {
                    proof {
                        if self.buffer.text@.len() == 0 {
                            assert(encode_utf8(self.buffer.text@) =~= Seq::<u8>::empty());
                        }
                    }
                    self.buffer.insert_char(c);
                    self.view.dirty = true;
                    let at_slash = {
                        let nb = self.buffer.text.as_str().as_bytes();
                        nb.len() > 0 && nb[0] == 47
                    };
                    if c == '@' && !at_slash {
                        self.view.mode = UiMode::FileMention;
                        self.pickers.file_selected = 0;
                    }
                }
    }
}

/// A selection clamped into a list of the given length.
pub open spec fn clamp_sel(sel: int, len: int) -> int {
    if len == 0 {
        0
    } else if sel >= len {
        len - 1
    } else {
        sel
    }
}

/// A paging offset keeping the selection inside a ten-row window; an empty
/// list resets it.
pub open spec fn clamp_window(sel: int, off: int, len: int) -> int {
    if len == 0 {
        0
    } else if sel < off {
        sel
    } else if sel >= off + 10 {
        sel + 1 - 10
    } else {
        off
    }
}

/// What one history-browser key leaves behind and asks for: movement
/// clamped to the list, delete and rename against the selected entry, Enter
/// opening it, with the selection kept inside the paging window.
pub open spec fn session_step_post(o: App, f: App, key: KeyInput, calls: Seq<CallSpec>) -> bool {
    if o.pickers.session_rename_active {
        session_rename_post(o, f, key, calls)
    } else {
        session_browse_post(o, f, key, calls)
    }
}

/// What one key does while a session rename is being typed.
pub open spec fn session_rename_post(o: App, f: App, key: KeyInput, calls: Seq<CallSpec>) -> bool {
    let list = o.pickers.session_list@;
    let sel = o.pickers.session_selected as int;
    {
        match key {
            KeyInput::Backspace => {
                &&& f == (App { pickers: f.pickers, view: f.view, ..o })
                &&& f.pickers == (PickerState {
                    session_rename_input: f.pickers.session_rename_input,
                    ..o.pickers
                })
                &&& f.pickers.session_rename_input@ == (if o.pickers.session_rename_input@.len()
                    == 0 {
                    o.pickers.session_rename_input@
                } else {
                    o.pickers.session_rename_input@.drop_last()
                })
                &&& f.view == (ViewState { dirty: true, ..o.view })
                &&& calls.len() == 0
            },
            KeyInput::Enter => {
                let t = crate::strutil::trimmed(
                    crate::strutil::string_bytes(o.pickers.session_rename_input),
                );
                &&& f == (App { pickers: f.pickers, view: f.view, ..o })
                &&& f.pickers == (PickerState {
                    session_list: f.pickers.session_list,
                    session_rename_active: false,
                    session_rename_input: f.pickers.session_rename_input,
                    ..o.pickers
                })
                &&& f.pickers.session_rename_input@ == Seq::<char>::empty()
                &&& f.view == (ViewState { dirty: true, ..o.view })
                &&& (sel < list.len() && t.len() > 0 ==> ({
                    &&& calls.len() == 1
                    &&& (calls[0] matches CallSpec::RenameSession { id, title } && id@
                        == list[sel].id@ && vstd::utf8::encode_utf8(title@) == t)
                    &&& f.pickers.session_list@.len() == list.len()
                    &&& (f.pickers.session_list@[sel] matches SessionInfo {
                        title: nt,
                        ..
                    } && vstd::utf8::encode_utf8(nt@) == t)
                    &&& forall|k: int|
                        0 <= k < list.len() && k != sel ==> f.pickers.session_list@[k] == list[k]
                }))
                &&& (!(sel < list.len() && t.len() > 0) ==> f.pickers.session_list@ == list
                    && calls.len() == 0)
            },
            KeyInput::Char(c) => {
                &&& f == (App { pickers: f.pickers, view: f.view, ..o })
                &&& f.pickers == (PickerState {
                    session_rename_input: f.pickers.session_rename_input,
                    ..o.pickers
                })
                &&& f.pickers.session_rename_input@ == o.pickers.session_rename_input@.push(c)
                &&& f.view == (ViewState { dirty: true, ..o.view })
                &&& calls.len() == 0
            },
            _ => {
                &&& f == (App { view: f.view, ..o })
                &&& f.view == (ViewState { dirty: true, ..o.view })
                &&& calls.len() == 0
            },
        }
    }
}

/// What one key does while the session list is being browsed.
pub open spec fn session_browse_post(o: App, f: App, key: KeyInput, calls: Seq<CallSpec>) -> bool {
    let list = o.pickers.session_list@;
    let sel = o.pickers.session_selected as int;
    {
        let (sel2, list2, renamed, hist, mode2) = match key {
            KeyInput::Up => (sat_sub(sel, 1), list, false, o.pickers.history_needs_refresh, o.view.mode),
            KeyInput::Down => (
                if sel + 1 < list.len() {
                    sel + 1
                } else {
                    sel
                },
                list,
                false,
                o.pickers.history_needs_refresh,
                o.view.mode,
            ),
            KeyInput::PageUp => (sat_sub(sel, 10), list, false, o.pickers.history_needs_refresh, o.view.mode),
            KeyInput::PageDown => (
                clamp_sel(sat_add(sel, 10), list.len() as int),
                list,
                false,
                o.pickers.history_needs_refresh,
                o.view.mode,
            ),
            KeyInput::Char(c) => if c == 'd' && sel < list.len() {
                (sel, list.remove(sel), false, true, o.view.mode)
            } else if c == 'r' && sel < list.len() {
                (sel, list, true, o.pickers.history_needs_refresh, o.view.mode)
            } else {
                (sel, list, false, o.pickers.history_needs_refresh, o.view.mode)
            },
            KeyInput::Enter => (sel, list, false, o.pickers.history_needs_refresh, UiMode::Normal),
            _ => (sel, list, false, o.pickers.history_needs_refresh, o.view.mode),
        };
        let sel3 = clamp_sel(sel2, list2.len() as int);
        &&& f == (App { pickers: f.pickers, view: f.view, ..o })
        &&& f.pickers == (PickerState {
            session_list: f.pickers.session_list,
            session_selected: sel3 as usize,
            session_offset: clamp_window(
                sel3,
                o.pickers.session_offset as int,
                list2.len() as int,
            ) as usize,
            session_rename_active: renamed,
            session_rename_input: f.pickers.session_rename_input,
            history_needs_refresh: hist,
            ..o.pickers
        })
        &&& f.pickers.session_list@ == list2
        &&& (renamed ==> f.pickers.session_rename_input@ == list[sel].title@)
        &&& (!renamed ==> f.pickers.session_rename_input == o.pickers.session_rename_input)
        &&& f.view == (ViewState { mode: mode2, dirty: true, ..o.view })
        &&& (key is Enter && sel < list.len() ==> calls.len() == 1 && (
        calls[0] matches CallSpec::LoadSession(id) && id@ == list[sel].id@))
        &&& ((key matches KeyInput::Char(c) && c == 'd') && sel < list.len() ==> calls.len() == 1
            && (calls[0] matches CallSpec::DeleteSession(id) && id@ == list[sel].id@))
        &&& (!((key is Enter || (key matches KeyInput::Char(c) && c == 'd')) && sel < list.len())
            ==> calls.len() == 0)
    }
}

/// What one question-prompt key leaves behind and asks for.
pub open spec fn question_step_post(o: App, f: App, key: KeyInput, calls: Seq<CallSpec>) -> bool {
    match o.pickers.question {
        None => {
            &&& f == (App { view: f.view, ..o })
            &&& f.view == (ViewState { dirty: true, ..o.view })
            &&& calls.len() == 0
        },
        Some(q) => {
            let total = q.options@.len() + if q.allow_custom {
                1int
            } else {
                0int
            };
            let answered = (calls.len() == 1 && (calls[0] matches CallSpec::AnswerQuestion {
                id,
                answers,
            } && id@ == q.id@));
            &&& f == (App { pickers: f.pickers, view: f.view, ..o })
            &&& f.pickers == (PickerState { question: f.pickers.question, ..o.pickers })
            &&& f.view == (ViewState { mode: f.view.mode, dirty: true, ..o.view })
            &&& (answered ==> f.pickers.question is None && f.view.mode == UiMode::Normal)
            &&& (!answered ==> calls.len() == 0 && f.view.mode == o.view.mode)
            &&& match key {
                KeyInput::Up => !q.custom_active ==> (!answered && (
                f.pickers.question matches Some(q2) && q2 == (QuestionState {
                    focused_index: sat_sub(q.focused_index as int, 1) as usize,
                    ..q
                }))),
                KeyInput::Down => !q.custom_active && total > 0 ==> (!answered && (
                f.pickers.question matches Some(q2) && q2 == (QuestionState {
                    focused_index: clamp_sel(q.focused_index + 1, total) as usize,
                    ..q
                }))),
                KeyInput::Enter => {
                    if q.custom_active {
                        let t = crate::strutil::trimmed(
                            crate::strutil::string_bytes(q.custom_input),
                        );
                        &&& (t.len() > 0 ==> answered && (
                        calls[0] matches CallSpec::AnswerQuestion { answers, .. }
                            && answers@.len() == 1 && vstd::utf8::encode_utf8(answers@[0]@) == t))
                        &&& (t.len() == 0 ==> !answered)
                    } else if q.allow_custom && q.focused_index == q.options@.len() {
                        !answered && (f.pickers.question matches Some(q2) && q2 == (
                        QuestionState { custom_active: true, ..q }))
                    } else {
                        true
                    }
                },
                _ => true,
            }
        },
    }
}

impl App {
    /// Step one key in the session-history browser.
    #[verifier::rlimit(100)]
    #[verifier::spinoff_prover]
    pub fn session_history_step(&mut self, key: KeyInput) -> (calls: Vec<CallSpec>)
        requires
            old(self).view.mode == UiMode::SessionHistory,
        ensures
            session_step_post(*old(self), *final(self), key, calls@),
    {
        if self.pickers.session_rename_active {
            self.session_rename_step(key)
        } else {
            self.session_browse_step(key)
        }
    }

    /// Step one key of the rename sub-mode.
    #[verifier::rlimit(100)]
    #[verifier::spinoff_prover]
    fn session_rename_step(&mut self, key: KeyInput) -> (calls: Vec<CallSpec>)
        requires
            old(self).pickers.session_rename_active,
        ensures
            session_rename_post(*old(self), *final(self), key, calls@),
    {
        let mut calls: Vec<CallSpec> = Vec::new();
        {
            match key {
                KeyInput::Backspace => {
                    crate::strutil::pop_char(&mut self.pickers.session_rename_input);
                },
                KeyInput::Enter => {
                    let sel = self.pickers.session_selected;
                    if sel < self.pickers.session_list.len() {
                        let t = crate::strutil::trim_owned(
                            self.pickers.session_rename_input.as_str(),
                        );
                        if t.as_str().as_bytes().len() > 0 {
                            let id = self.pickers.session_list[sel].id.clone();
                            let mut e = self.pickers.session_list.remove(sel);
                            e.title = t.clone();
                            let ghost old_list = old(self).pickers.session_list@;
                            self.pickers.session_list.insert(sel, e);
                            proof {
                                assert(self.pickers.session_list@ =~= old_list.update(
                                    sel as int,
                                    self.pickers.session_list@[sel as int],
                                ));
                            }
                            calls.push(CallSpec::RenameSession { id, title: t });
                        }
                    }
                    self.pickers.session_rename_active = false;
                    self.pickers.session_rename_input = String::new();
                },
                KeyInput::Char(c) => {
                    let ghost before = self.pickers.session_rename_input@;
                    crate::editor::push_char(&mut self.pickers.session_rename_input, c);
                    proof {
                        assert(self.pickers.session_rename_input@ =~= before.push(c));
                    }
                },
                _ => {},
            }
            self.view.dirty = true;
            return calls;
        }
    }

    /// Step one key of the browsing sub-mode.
    #[verifier::rlimit(100)]
    #[verifier::spinoff_prover]
    fn session_browse_step(&mut self, key: KeyInput) -> (calls: Vec<CallSpec>)
        requires
            !old(self).pickers.session_rename_active,
        ensures
            session_browse_post(*old(self), *final(self), key, calls@),
    {
        let len0 = self.pickers.session_list.len();
        let sel = self.pickers.session_selected;
        match key {
            KeyInput::Up => {
                let r = self.browse_finish(sel.saturating_sub(1), false);
                r
            },
            KeyInput::Down => {
                let sel2 = if len0 > 0 && sel < len0 - 1 {
                    sel + 1
                } else {
                    sel
                };
                self.browse_finish(sel2, false)
            },
            KeyInput::PageUp => {
                self.browse_finish(sel.saturating_sub(10), false)
            },
            KeyInput::PageDown => {
                let bumped = sel.saturating_add(10);
                let sel2 = if len0 == 0 {
                    0
                } else if bumped >= len0 {
                    len0 - 1
                } else {
                    bumped
                };
                self.browse_finish(sel2, false)
            },
            KeyInput::Char(c) => {
                self.browse_char(c)
            },
            KeyInput::Enter => {
                let mut calls: Vec<CallSpec> = Vec::new();
                if sel < len0 {
                    calls.push(
                        CallSpec::LoadSession(self.pickers.session_list[sel].id.clone()),
                    );
                }
                self.view.mode = UiMode::Normal;
                let r = self.browse_finish(sel, false);
                proof {
                    assert(r@.len() == 0);
                }
                calls
            },
            _ => {
                self.browse_finish(sel, false)
            },
        }
    }

    /// Delete or rename against the selected entry.
    #[verifier::rlimit(100)]
    #[verifier::spinoff_prover]
    fn browse_char(&mut self, c: char) -> (calls: Vec<CallSpec>)
        requires
            !old(self).pickers.session_rename_active,
        ensures
            session_browse_post(*old(self), *final(self), KeyInput::Char(c), calls@),
    {
        let mut calls: Vec<CallSpec> = Vec::new();
        let len0 = self.pickers.session_list.len();
        let sel = self.pickers.session_selected;
        if c == 'd' && sel < len0 {
            let removed = self.pickers.session_list.remove(sel);
            calls.push(CallSpec::DeleteSession(removed.id));
            self.pickers.history_needs_refresh = true;
        } else if c == 'r' && sel < len0 {
            self.pickers.session_rename_active = true;
            self.pickers.session_rename_input = self.pickers.session_list[sel].title.clone();
        }
        let r = self.browse_finish(sel, c == 'r' && sel < len0);
        proof {
            assert(r@.len() == 0);
        }
        calls
    }

    /// Clamp the selection and the paging window and request a redraw.
    #[verifier::rlimit(100)]
    #[verifier::spinoff_prover]
    fn browse_finish(&mut self, sel2: usize, renamed: bool) -> (calls: Vec<CallSpec>)
        requires
            renamed == old(self).pickers.session_rename_active,
        ensures
            calls@.len() == 0,
            *final(self) == (App { pickers: final(self).pickers, view: final(self).view, ..*old(
                self,
            ) }),
            final(self).pickers == (PickerState {
                session_selected: clamp_sel(
                    sel2 as int,
                    old(self).pickers.session_list@.len() as int,
                ) as usize,
                session_offset: clamp_window(
                    clamp_sel(sel2 as int, old(self).pickers.session_list@.len() as int),
                    old(self).pickers.session_offset as int,
                    old(self).pickers.session_list@.len() as int,
                ) as usize,
                ..old(self).pickers
            }),
            final(self).view == (ViewState { dirty: true, ..old(self).view }),
    {
        let len = self.pickers.session_list.len();
        let sel3 = if len == 0 {
            0
        } else if sel2 >= len {
            len - 1
        } else {
            sel2
        };
        let off = self.pickers.session_offset;
        let off3 = if len == 0 {
            0
        } else if sel3 < off {
            sel3
        } else if sel3 - off >= 10 {
            sel3 - 9
        } else {
            off
        };
        self.pickers.session_selected = sel3;
        self.pickers.session_offset = off3;
        self.view.dirty = true;
        Vec::new()
    }

    /// Step one key in the question prompt.
    #[verifier::rlimit(100)]
    #[verifier::spinoff_prover]
    pub fn question_step(&mut self, key: KeyInput) -> (calls: Vec<CallSpec>)
        requires
            old(self).view.mode == UiMode::QuestionPrompt,
        ensures
            question_step_post(*old(self), *final(self), key, calls@),
    {
        let mut calls: Vec<CallSpec> = Vec::new();
        let mut q = match self.pickers.question.take() {
            Some(q) => q,
            None => {
                self.view.dirty = true;
                return calls;
            },
        };
        let mut answered = false;
        match key {
            KeyInput::Up => {
                if !q.custom_active {
                    q.focused_index = q.focused_index.saturating_sub(1);
                }
            },
            KeyInput::Down => {
                if !q.custom_active && (q.options.len() > 0 || q.allow_custom) {
                    let top = if q.allow_custom {
                        q.options.len()
                    } else {
                        q.options.len() - 1
                    };
                    q.focused_index = if q.focused_index >= top {
                        top
                    } else {
                        q.focused_index + 1
                    };
                }
            },
            KeyInput::Char(c) => {
                if q.custom_active {
                    crate::editor::push_char(&mut q.custom_input, c);
                } else if c == ' ' && q.allow_multiple {
                    if q.focused_index < q.options.len() {
                        let idx = q.focused_index;
                        crate::state::select_option(&mut q, idx);
                    } else if q.allow_custom {
                        q.custom_active = true;
                    }
                } else if c >= '1' && c <= '9' {
                    let idx = (c as usize) - 49;
                    if idx < q.options.len() {
                        calls.push(
                            CallSpec::AnswerQuestion {
                                id: q.id.clone(),
                                answers: vec![q.options[idx].label.clone()],
                            },
                        );
                        answered = true;
                    }
                }
            },
            KeyInput::Backspace => {
                if q.custom_active {
                    crate::strutil::pop_char(&mut q.custom_input);
                }
            },
            KeyInput::Enter => {
                if q.custom_active {
                    let t = crate::strutil::trim_owned(q.custom_input.as_str());
                    if t.as_str().as_bytes().len() > 0 {
                        calls.push(
                            CallSpec::AnswerQuestion { id: q.id.clone(), answers: vec![t] },
                        );
                        answered = true;
                    }
                } else if q.allow_custom && q.focused_index == q.options.len() {
                    q.custom_active = true;
                } else if q.allow_multiple {
                    let answers = crate::state::collect_answers(&q);
                    if answers.len() > 0 {
                        calls.push(CallSpec::AnswerQuestion { id: q.id.clone(), answers });
                        answered = true;
                    } else if q.focused_index < q.options.len() {
                        calls.push(
                            CallSpec::AnswerQuestion {
                                id: q.id.clone(),
                                answers: vec![q.options[q.focused_index].label.clone()],
                            },
                        );
                        answered = true;
                    }
                } else if q.focused_index < q.options.len() {
                    calls.push(
                        CallSpec::AnswerQuestion {
                            id: q.id.clone(),
                            answers: vec![q.options[q.focused_index].label.clone()],
                        },
                    );
                    answered = true;
                }
            },
            _ => {},
        }
        if answered {
            self.view.mode = UiMode::Normal;
        } else {
            self.pickers.question = Some(q);
        }
        self.view.dirty = true;
        calls
    }

    /// Step one key in the plan-acceptance prompt: Enter approves the plan
    /// and returns to normal mode.
    pub fn plan_step(&mut self, key: KeyInput) -> (calls: Vec<CallSpec>)
        ensures
            *final(self) == (App { view: final(self).view, ..*old(self) }),
            final(self).view == (ViewState {
                mode: if key is Enter {
                    UiMode::Normal
                } else {
                    old(self).view.mode
                },
                dirty: true,
                ..old(self).view
            }),
            key is Enter ==> calls@.len() == 1 && calls@[0] is ApprovePlan,
            !(key is Enter) ==> calls@.len() == 0,
    {
        let mut calls: Vec<CallSpec> = Vec::new();
        if matches!(key, KeyInput::Enter) {
            calls.push(CallSpec::ApprovePlan);
            self.view.mode = UiMode::Normal;
        }
        self.view.dirty = true;
        calls
    }

    /// Step one key in the help overlay: Enter closes it.
    pub fn help_step(&mut self, key: KeyInput)
        ensures
            *final(self) == (App { view: final(self).view, ..*old(self) }),
            final(self).view == (ViewState {
                mode: if key is Enter {
                    UiMode::Normal
                } else {
                    old(self).view.mode
                },
                dirty: true,
                ..old(self).view
            }),
    {
        if matches!(key, KeyInput::Enter) {
            self.view.mode = UiMode::Normal;
        }
        self.view.dirty = true;
    }
}

/// The palette's filtered command list for a query.
pub open spec fn palette_filtered(query: String) -> Seq<crate::commands::CommandItem> {
    let qt = trimmed(crate::strutil::string_bytes(query));
    if qt.len() == 0 {
        crate::commands::spec_commands()
    } else {
        crate::commands::spec_commands().filter(
            |c: crate::commands::CommandItem| crate::commands::cmd_matches(c, qt),
        )
    }
}

/// The palette bookkeeping after one key: selection and offset clamped to
/// the filtered list computed from the query the key found.
pub open spec fn palette_clamped(f: App, o: App, sel2: int, off2: int, len: int) -> bool {
    &&& f.pickers.command_selected as int == clamp_sel(sel2, len)
    &&& f.pickers.command_offset as int == clamp_window(clamp_sel(sel2, len), off2, len)
}

/// What one palette key leaves behind and asks for: movement clamped to
/// the filtered list, query edits resetting selection and paging, Enter
/// committing the selected command and returning to normal mode.
pub open spec fn palette_step_post(o: App, f: App, key: KeyInput, calls: Seq<CallSpec>) -> bool {
    let cmds = palette_filtered(o.pickers.command_query);
    let sel = o.pickers.command_selected as int;
    let off = o.pickers.command_offset as int;
    match key {
        KeyInput::Enter => {
            &&& (sel < cmds.len() ==> exists|mid: App|
                #[trigger] crate::state::command_step_post(o, mid, cmds[sel].action@, calls)
                    && palette_finish_post(mid, f, cmds.len() as int))
            &&& (sel >= cmds.len() ==> calls.len() == 0 && palette_finish_post(
                o,
                f,
                cmds.len() as int,
            ))
        },
        KeyInput::Backspace => {
            &&& calls.len() == 0
            &&& f == (App { pickers: f.pickers, view: f.view, ..o })
            &&& f.view == (ViewState { dirty: true, ..o.view })
            &&& f.pickers == (PickerState {
                command_query: f.pickers.command_query,
                command_selected: f.pickers.command_selected,
                command_offset: f.pickers.command_offset,
                ..o.pickers
            })
            &&& f.pickers.command_query@ == (if o.pickers.command_query@.len() == 0 {
                o.pickers.command_query@
            } else {
                o.pickers.command_query@.drop_last()
            })
            &&& palette_clamped(f, o, 0, 0, cmds.len() as int)
        },
        KeyInput::Char(c) => if c == 'k' {
            palette_move_post(o, f, calls, sat_sub(sel, 1), cmds.len() as int)
        } else if c == 'j' {
            palette_move_post(
                o,
                f,
                calls,
                if sel + 1 < cmds.len() {
                    sel + 1
                } else {
                    sel
                },
                cmds.len() as int,
            )
        } else {
            &&& calls.len() == 0
            &&& f == (App { pickers: f.pickers, view: f.view, ..o })
            &&& f.view == (ViewState { dirty: true, ..o.view })
            &&& f.pickers == (PickerState {
                command_query: f.pickers.command_query,
                command_selected: f.pickers.command_selected,
                command_offset: f.pickers.command_offset,
                ..o.pickers
            })
            &&& f.pickers.command_query@ == o.pickers.command_query@.push(c)
            &&& palette_clamped(f, o, 0, 0, cmds.len() as int)
        },
        KeyInput::Up => palette_move_post(o, f, calls, sat_sub(sel, 1), cmds.len() as int),
        KeyInput::Down => palette_move_post(
            o,
            f,
            calls,
            if sel + 1 < cmds.len() {
                sel + 1
            } else {
                sel
            },
            cmds.len() as int,
        ),
        KeyInput::PageUp => palette_move_post(o, f, calls, sat_sub(sel, 10), cmds.len() as int),
        KeyInput::PageDown => palette_move_post(
            o,
            f,
            calls,
            clamp_sel(sat_add(sel, 10), cmds.len() as int),
            cmds.len() as int,
        ),
        _ => palette_move_post(o, f, calls, sel, cmds.len() as int),
    }
}

/// A palette movement: only the selection and the paging window change.
pub open spec fn palette_move_post(
    o: App,
    f: App,
    calls: Seq<CallSpec>,
    sel2: int,
    len: int,
) -> bool {
    &&& calls.len() == 0
    &&& f == (App { pickers: f.pickers, view: f.view, ..o })
    &&& f.view == (ViewState { dirty: true, ..o.view })
    &&& f.pickers == (PickerState {
        command_selected: f.pickers.command_selected,
        command_offset: f.pickers.command_offset,
        ..o.pickers
    })
    &&& palette_clamped(f, o, sel2, o.pickers.command_offset as int, len)
}

/// Leaving the palette after a commit: the palette closes unless the
/// command opened another overlay, the query clears, and the selection is
/// clamped against the list the key found.
pub open spec fn palette_finish_post(mid: App, f: App, len: int) -> bool {
    &&& f == (App { pickers: f.pickers, view: f.view, ..mid })
    &&& f.view == (ViewState {
        mode: if mid.view.mode == UiMode::CommandPalette {
            UiMode::Normal
        } else {
            mid.view.mode
        },
        dirty: true,
        ..mid.view
    })
    &&& f.pickers == (PickerState {
        command_query: f.pickers.command_query,
        command_selected: f.pickers.command_selected,
        command_offset: f.pickers.command_offset,
        ..mid.pickers
    })
    &&& f.pickers.command_query@ == Seq::<char>::empty()
    &&& f.pickers.command_selected as int == clamp_sel(mid.pickers.command_selected as int, len)
    &&& f.pickers.command_offset as int == clamp_window(
        clamp_sel(mid.pickers.command_selected as int, len),
        0,
        len,
    )
}

impl App {
    /// Step one key in the command palette.
    #[verifier::rlimit(100)]
    #[verifier::spinoff_prover]
    pub fn palette_step(&mut self, key: KeyInput) -> (calls: Vec<CallSpec>)
        requires
            old(self).view.mode == UiMode::CommandPalette,
        ensures
            palette_step_post(*old(self), *final(self), key, calls@),
    {
        let cmds = crate::commands::filter_commands(
            &crate::commands::commands_list(),
            self.pickers.command_query.as_str(),
        );
        proof {
            assert(cmds@ == palette_filtered(self.pickers.command_query));
        }
        let len = cmds.len();
        let sel = self.pickers.command_selected;
        match key {
            KeyInput::Enter => {
                let mut calls: Vec<CallSpec> = Vec::new();
                if sel < len {
                    let cmd = cmds[sel];
                    calls = self.command_step(&cmd);
                }
                let ghost mid = *self;
                if matches!(self.view.mode, UiMode::CommandPalette) {
                    self.view.mode = UiMode::Normal;
                }
                self.pickers.command_query = String::new();
                self.palette_clamp(sel, 0, len);
                proof {
                    if (sel as int) < cmds@.len() {
                        assert(crate::state::command_step_post(
                            *old(self),
                            mid,
                            cmds@[sel as int].action@,
                            calls@,
                        ));
                        assert(palette_finish_post(mid, *self, len as int));
                    } else {
                        assert(palette_finish_post(*old(self), *self, len as int));
                    }
                }
                calls
            },
            KeyInput::Backspace => {
                crate::strutil::pop_char(&mut self.pickers.command_query);
                self.palette_clamp(0, 0, len);
                Vec::new()
            },
            KeyInput::Char(c) => {
                if c == 'k' {
                    self.palette_clamp(sel.saturating_sub(1), self.pickers.command_offset, len);
                } else if c == 'j' {
                    let sel2 = if len > 0 && sel < len - 1 {
                        sel + 1
                    } else {
                        sel
                    };
                    self.palette_clamp(sel2, self.pickers.command_offset, len);
                } else {
                    let ghost before = self.pickers.command_query@;
                    crate::editor::push_char(&mut self.pickers.command_query, c);
                    proof {
                        assert(self.pickers.command_query@ =~= before.push(c));
                    }
                    self.palette_clamp(0, 0, len);
                }
                Vec::new()
            },
            KeyInput::Up => {
                self.palette_clamp(sel.saturating_sub(1), self.pickers.command_offset, len);
                Vec::new()
            },
            KeyInput::Down => {
                let sel2 = if len > 0 && sel < len - 1 {
                    sel + 1
                } else {
                    sel
                };
                self.palette_clamp(sel2, self.pickers.command_offset, len);
                Vec::new()
            },
            KeyInput::PageUp => {
                self.palette_clamp(sel.saturating_sub(10), self.pickers.command_offset, len);
                Vec::new()
            },
            KeyInput::PageDown => {
                let bumped = sel.saturating_add(10);
                let sel2 = if len == 0 {
                    0
                } else if bumped >= len {
                    len - 1
                } else {
                    bumped
                };
                self.palette_clamp(sel2, self.pickers.command_offset, len);
                Vec::new()
            },
            _ => {
                self.palette_clamp(sel, self.pickers.command_offset, len);
                Vec::new()
            },
        }
    }

    /// Clamp the palette selection and paging window and request a redraw.
    fn palette_clamp(&mut self, sel2: usize, off2: usize, len: usize)
        ensures
            *final(self) == (App { pickers: final(self).pickers, view: final(self).view, ..*old(
                self,
            ) }),
            final(self).pickers == (PickerState {
                command_selected: clamp_sel(sel2 as int, len as int) as usize,
                command_offset: clamp_window(
                    clamp_sel(sel2 as int, len as int),
                    off2 as int,
                    len as int,
                ) as usize,
                ..old(self).pickers
            }),
            final(self).view == (ViewState { dirty: true, ..old(self).view }),
    {
        let sel3 = if len == 0 {
            0
        } else if sel2 >= len {
            len - 1
        } else {
            sel2
        };
        let off3 = if len == 0 {
            0
        } else if sel3 < off2 {
            sel3
        } else if sel3 >= off2 && sel3 - off2 >= 10 {
            sel3 - 9
        } else {
            off2
        };
        self.pickers.command_selected = sel3;
        self.pickers.command_offset = off3;
        self.view.dirty = true;
    }
}

/// A string with no bytes has no characters.


proof fn lemma_empty_bytes_empty_chars(cs: Seq<char>)
    requires
        encode_utf8(cs).len() == 0,
    ensures
        cs.len() == 0,
{
    if cs.len() > 0 {
        vstd::utf8::encode_utf8_first_scalar(cs);
        assert(encode_utf8(cs) =~= encode_scalar(cs[0] as u32) + encode_utf8(cs.drop_first()));
    }
}

/// A string with bytes has characters.
proof fn lemma_nonempty_bytes_nonempty_chars(cs: Seq<char>)
    requires
        encode_utf8(cs).len() > 0,
    ensures
        cs.len() > 0,
{
}

} // verus!
