//! The state and decisions of the interactive search.

use crate::db::{collapsed_views, copy_collapsed, CollapsedRecord, CollapsedView};
use crate::report::{context_text, render_context};
use crate::text::{append_chars, append_str, chars_of, nat_decimal, push_char, string_from_chars, u64_decimal};
use vstd::prelude::*;

verus! {

/// The number of results the interactive search shows for a query.
pub const RESULT_LIMIT: usize = 20;

/// The number of recent commands shown before anything is typed.
pub const RECENT_LIMIT: usize = 10;

/// The key legend of the preview pane.
pub const KEY_HELP: &'static str = "[Enter] Insert/edit  [Ctrl+Y] Copy  [F5] Rerun (executes)";

/// A key of the keyboard.
#[derive(Debug, Clone, Copy, PartialEq, Eq, Structural)]
pub enum KeyCode {
    Backspace,
    Enter,
    Up,
    Down,
    Esc,
    /// A function key, by number.
    F(u8),
    /// A character key.
    Char(char),
    /// Any other key.
    Other,
}

/// The modifier keys held with a key.
#[derive(Debug, Clone, Copy, PartialEq, Eq, Structural)]
pub struct KeyModifiers {
    pub shift: bool,
    pub control: bool,
    pub alt: bool,
    pub super_key: bool,
    pub hyper: bool,
    pub meta: bool,
}

impl KeyModifiers {
    /// No modifier.
    pub fn none() -> (res: KeyModifiers)
        ensures
            !res.shift && !res.control && !res.alt && !res.super_key && !res.hyper && !res.meta,
    {
        KeyModifiers {
            shift: false,
            control: false,
            alt: false,
            super_key: false,
            hyper: false,
            meta: false,
        }
    }

    /// Shift alone.
    pub fn shift_only() -> (res: KeyModifiers)
        ensures
            res.shift && !res.control && !res.alt && !res.super_key && !res.hyper && !res.meta,
    {
        KeyModifiers {
            shift: true,
            control: false,
            alt: false,
            super_key: false,
            hyper: false,
            meta: false,
        }
    }

    /// Control alone.
    pub fn control_only() -> (res: KeyModifiers)
        ensures
            !res.shift && res.control && !res.alt && !res.super_key && !res.hyper && !res.meta,
    {
        KeyModifiers {
            shift: false,
            control: true,
            alt: false,
            super_key: false,
            hyper: false,
            meta: false,
        }
    }
}

/// Whether no modifier, or only Shift, is held.
pub open spec fn plain_or_shift(m: KeyModifiers) -> bool {
    !m.control && !m.alt && !m.super_key && !m.hyper && !m.meta
}

/// A key press.
#[derive(Debug, Clone, Copy, PartialEq, Eq, Structural)]
pub struct KeyEvent {
    pub code: KeyCode,
    pub modifiers: KeyModifiers,
}

impl KeyEvent {
    /// A key press with modifiers.
    pub fn new(code: KeyCode, modifiers: KeyModifiers) -> (res: KeyEvent)
        ensures
            res.code == code,
            res.modifiers == modifiers,
    {
        KeyEvent { code, modifiers }
    }
}

/// What a key press asks for.
#[derive(Debug, PartialEq, Eq)]
pub enum Action {
    /// Keep going.
    Continue,
    /// Leave without choosing.
    Quit,
    /// Copy this raw command to the clipboard.
    Copy(String),
    /// Put this raw command on the prompt for editing.
    Insert(String),
    /// Run this raw command.
    Rerun(String),
}

/// The state of the interactive search.
pub struct App {
    pub input: String,
    pub results: Vec<CollapsedRecord>,
    pub selected: usize,
    pub error: Option<String>,
    pub status: Option<String>,
}

impl Default for App {
    /// An empty query, no results, the first row selected.
    fn default() -> (res: Self)
        ensures
            res.input@ == Seq::<char>::empty(),
            res.results@.len() == 0,
            res.selected == 0,
            res.error is None,
            res.status is None,
            res.wf(),
    {
        App { input: String::new(), results: Vec::new(), selected: 0, error: None, status: None }
    }
}

/// The view of an optional string.
pub open spec fn ov(o: Option<String>) -> Option<Seq<char>> {
    crate::db::opt_view(o)
}

impl App {
    /// The selection points at a result, or at the first row when there are
    /// none.
    pub open spec fn wf(&self) -> bool {
        if self.results@.len() == 0 {
            self.selected == 0
        } else {
            self.selected < self.results@.len()
        }
    }

    /// The selection after a key: Up moves it one row up (not past the
    /// first), Down one row down (not past the last result); other keys leave
    /// it.
    pub open spec fn selection_after(&self, key: KeyEvent) -> usize {
        match key.code {
            KeyCode::Up => if self.selected > 0 {
                (self.selected - 1) as usize
            } else {
                0
            },
            KeyCode::Down => if self.selected + 1 < self.results@.len() {
                (self.selected + 1) as usize
            } else {
                self.selected
            },
            _ => self.selected,
        }
    }

    /// The query after a key: a character typed alone or with Shift is
    /// appended (Ctrl+Y aside), Backspace drops the last character, other keys
    /// leave it.
    pub open spec fn input_after(&self, key: KeyEvent) -> Seq<char> {
        match key.code {
            KeyCode::Char(c) => if !(c == 'y' && key.modifiers.control) && plain_or_shift(
                key.modifiers,
            ) {
                self.input@.push(c)
            } else {
                self.input@
            },
            KeyCode::Backspace => if self.input@.len() > 0 {
                self.input@.drop_last()
            } else {
                self.input@
            },
            _ => self.input@,
        }
    }

    /// The raw command of the selected result, if there is one.
    pub open spec fn selected_text(&self) -> Option<Seq<char>> {
        if self.selected < self.results@.len() {
            Some(self.results@[self.selected as int].command_text@)
        } else {
            None
        }
    }

    /// Replaces the results, moving the selection to the last result when
    /// it would point past them.
    pub fn set_results(&mut self, results: Vec<CollapsedRecord>)
        ensures
            final(self).results@ == results@,
            final(self).selected == if old(self).selected >= results@.len() {
                if results@.len() == 0 {
                    0
                } else {
                    (results@.len() - 1) as usize
                }
            } else {
                old(self).selected
            },
            final(self).input@ == old(self).input@,
            ov(final(self).error) == ov(old(self).error),
            ov(final(self).status) == ov(old(self).status),
            final(self).wf(),
    {
        self.results = results;
        if self.selected >= self.results.len() {
            self.selected = if self.results.len() == 0 {
                0
            } else {
                self.results.len() - 1
            };
        }
    }

    /// The raw command of the selected result.
    fn selected_command(&self) -> (res: Option<String>)
        ensures
            ov(res) == self.selected_text(),
    {
        if self.selected < self.results.len() {
            Some(self.results[self.selected].command_text.clone())
        } else {
            None
        }
    }

    /// Handles one key: Esc quits; Enter inserts, Ctrl+Y copies and F5 reruns
    /// the selected raw command; Up and Down move the selection within the
    /// results; Backspace deletes the last character of the query; a
    /// character typed alone or with Shift extends the query; other keys do
    /// nothing. The results never change here.
    pub fn handle_key(&mut self, key: KeyEvent) -> (res: Action)
        ensures
            final(self).selected == old(self).selection_after(key),
            final(self).input@ == old(self).input_after(key),
            final(self).results@ == old(self).results@,
            ov(final(self).error) == ov(old(self).error),
            ov(final(self).status) == ov(old(self).status),
            old(self).wf() ==> final(self).wf(),
            ({
                let sel = old(self).selected_text();
                match key.code {
                    KeyCode::Esc => res == Action::Quit && final(self).selected == old(self).selected
                        && final(self).input@ == old(self).input@,
                    KeyCode::Enter => (match sel {
                        Some(t) => res matches Action::Insert(x) && x@ == t,
                        None => res == Action::Continue,
                    }) && final(self).selected == old(self).selected && final(self).input@ == old(
                        self,
                    ).input@,
                    KeyCode::Char(c) => if c == 'y' && key.modifiers.control {
                        (match sel {
                            Some(t) => res matches Action::Copy(x) && x@ == t,
                            None => res == Action::Continue,
                        }) && final(self).selected == old(self).selected && final(self).input@
                            == old(self).input@
                    } else if plain_or_shift(key.modifiers) {
                        res == Action::Continue && final(self).selected == old(self).selected
                            && final(self).input@ == old(self).input@.push(c)
                    } else {
                        res == Action::Continue && final(self).selected == old(self).selected
                            && final(self).input@ == old(self).input@
                    },
                    KeyCode::F(n) => (if n == 5 {
                        match sel {
                            Some(t) => res matches Action::Rerun(x) && x@ == t,
                            None => res == Action::Continue,
                        }
                    } else {
                        res == Action::Continue
                    }) && final(self).selected == old(self).selected && final(self).input@ == old(
                        self,
                    ).input@,
                    KeyCode::Up => res == Action::Continue && final(self).selected == (if old(
                        self,
                    ).selected > 0 {
                        (old(self).selected - 1) as usize
                    } else {
                        0
                    }) && final(self).input@ == old(self).input@,
                    KeyCode::Down => res == Action::Continue && final(self).selected == (if old(
                        self,
                    ).selected + 1 < old(self).results@.len() {
                        (old(self).selected + 1) as usize
                    } else {
                        old(self).selected
                    }) && final(self).input@ == old(self).input@,
                    KeyCode::Backspace => res == Action::Continue && final(self).selected == old(
                        self,
                    ).selected && final(self).input@ == (if old(self).input@.len() > 0 {
                        old(self).input@.drop_last()
                    } else {
                        old(self).input@
                    }),
                    KeyCode::Other => res == Action::Continue && final(self).selected == old(
                        self,
                    ).selected && final(self).input@ == old(self).input@,
                }
            }),
    {
        match key.code {
            KeyCode::Esc => Action::Quit,
            KeyCode::Enter => match self.selected_command() {
                Some(t) => Action::Insert(t),
                None => Action::Continue,
            },
            KeyCode::Char(c) => {
                if c == 'y' && key.modifiers.control {
                    match self.selected_command() {
                        Some(t) => Action::Copy(t),
                        None => Action::Continue,
                    }
                } else if !key.modifiers.control && !key.modifiers.alt && !key.modifiers.super_key
                    && !key.modifiers.hyper && !key.modifiers.meta {
                    push_char(&mut self.input, c);
                    Action::Continue
                } else {
                    Action::Continue
                }
            },
            KeyCode::F(n) => {
                if n == 5 {
                    match self.selected_command() {
                        Some(t) => Action::Rerun(t),
                        None => Action::Continue,
                    }
                } else {
                    Action::Continue
                }
            },
            KeyCode::Up => {
                if self.selected > 0 {
                    self.selected = self.selected - 1;
                }
                Action::Continue
            },
            KeyCode::Down => {
                if self.results.len() > 0 && self.selected < self.results.len() - 1 {
                    self.selected = self.selected + 1;
                }
                Action::Continue
            },
            KeyCode::Backspace => {
                pop_char(&mut self.input);
                Action::Continue
            },
            KeyCode::Other => Action::Continue,
        }
    }
}

/// Calls `String::pop` and drops the character it returns: the contract
/// claims that the last character is removed, and that an empty string stays
/// empty.
#[verifier::external_body]
fn pop_char(s: &mut String)
    ensures
        final(s)@ == if old(s)@.len() > 0 {
            old(s)@.drop_last()
        } else {
            old(s)@
        },
{
    s.pop();
}

/// The first row to show so that the selected row is visible.
pub fn visible_result_start(selected: usize, visible_rows: usize) -> (res: usize)
    ensures
        res == if visible_rows == 0 {
            selected as int
        } else if selected >= visible_rows - 1 {
            selected - (visible_rows - 1)
        } else {
            0
        },
        visible_rows > 0 ==> res <= selected < res + visible_rows,
{
    let keep = if visible_rows > 0 {
        visible_rows - 1
    } else {
        0
    };
    if selected >= keep {
        selected - keep
    } else {
        0
    }
}

/// What the shell hook receives: the action on the first line, the raw
/// command after it.
pub open spec fn shell_output_text(action: Seq<char>, text: Seq<char>) -> Seq<char> {
    action + seq!['\n'] + text
}

/// The shell hooks get back exactly what was selected: when the action holds
/// no newline, the output's first newline ends the action, and everything
/// after it is the raw command, its own newlines included.
pub proof fn lemma_shell_output_splits(action: Seq<char>, text: Seq<char>)
    requires
        forall|i: int| 0 <= i < action.len() ==> action[i] != '\n',
    ensures
        ({
            let out = shell_output_text(action, text);
            &&& out[action.len() as int] == '\n'
            &&& forall|i: int| 0 <= i < action.len() ==> out[i] != '\n'
            &&& out.subrange(0, action.len() as int) == action
            &&& out.subrange(action.len() as int + 1, out.len() as int) == text
        }),
{
    let out = shell_output_text(action, text);
    assert(out.subrange(0, action.len() as int) =~= action);
    assert(out.subrange(action.len() as int + 1, out.len() as int) =~= text);
}

/// The selection protocol of the shell hooks: the action, a newline, then the
/// raw command exactly as stored.
pub fn shell_output(action: &str, text: &str) -> (res: String)
    ensures
        res@ == shell_output_text(action@, text@),
{
    let mut v = chars_of(action);
    v.push('\n');
    append_chars(&mut v, chars_of(text).as_slice());
    string_from_chars(v.as_slice())
}


/// What the event loop does after a key press.
#[derive(Debug, PartialEq, Eq)]
pub enum LoopStep {
    /// Leave, printing this for the shell hook (nothing when empty).
    Exit(String),
    /// Copy this raw command to the clipboard and report how it went.
    Copy(String),
    /// The query changed: run the search again.
    Refresh,
    /// Nothing more to do.
    Stay,
}

/// Whether a key press is Ctrl+C.
pub open spec fn is_interrupt(key: KeyEvent) -> bool {
    key.code == KeyCode::Char('c') && key.modifiers.control
}

/// What the interactive search asks for.
#[derive(Debug, PartialEq, Eq)]
pub enum RefreshRequest {
    /// The most recent commands, at most this many.
    Recent(usize),
    /// A fuzzy search for this query, at most this many.
    Fuzzy(String, usize),
}

impl App {
    /// Decides what one key press leads to: Ctrl+C and Esc leave; Enter and F5
    /// leave with the selected raw command for the shell (`insert` or
    /// `rerun`); Ctrl+Y asks to copy it; a change of the query clears the error
    /// and asks for a new search.
    pub fn process_key(&mut self, key: KeyEvent) -> (res: LoopStep)
        ensures
            final(self).results@ == old(self).results@,
            ov(final(self).status) == ov(old(self).status),
            is_interrupt(key) ==> final(self).selected == old(self).selected
                && ov(final(self).error) == ov(old(self).error),
            !is_interrupt(key) ==> final(self).selected == old(self).selection_after(key)
                && final(self).input@ == old(self).input_after(key),
            !is_interrupt(key) && old(self).input_after(key) != old(self).input@
                ==> final(self).error is None,
            !is_interrupt(key) && old(self).input_after(key) == old(self).input@
                ==> ov(final(self).error) == ov(old(self).error),
            old(self).wf() ==> final(self).wf(),
            is_interrupt(key) ==> (res matches LoopStep::Exit(s) && s@.len() == 0
                && final(self).input@ == old(self).input@),
            !is_interrupt(key) ==> ({
                let sel = old(self).selected_text();
                match key.code {
                    KeyCode::Esc => res matches LoopStep::Exit(s) && s@.len() == 0,
                    KeyCode::Enter => match sel {
                        Some(t) => res matches LoopStep::Exit(s) && s@ == shell_output_text(
                            "insert"@,
                            t,
                        ),
                        None => res == LoopStep::Stay,
                    },
                    KeyCode::F(n) => if n == 5 {
                        match sel {
                            Some(t) => res matches LoopStep::Exit(s) && s@ == shell_output_text(
                                "rerun"@,
                                t,
                            ),
                            None => res == LoopStep::Stay,
                        }
                    } else {
                        res == LoopStep::Stay
                    },
                    KeyCode::Char(c) => if c == 'y' && key.modifiers.control {
                        match sel {
                            Some(t) => res matches LoopStep::Copy(x) && x@ == t,
                            None => res == LoopStep::Stay,
                        }
                    } else if plain_or_shift(key.modifiers) {
                        res == LoopStep::Refresh && final(self).input@ == old(self).input@.push(c)
                            && final(self).error is None
                    } else {
                        res == LoopStep::Stay
                    },
                    KeyCode::Backspace => if old(self).input@.len() > 0 {
                        res == LoopStep::Refresh && final(self).input@ == old(
                            self,
                        ).input@.drop_last() && final(self).error is None
                    } else {
                        res == LoopStep::Stay
                    },
                    _ => res == LoopStep::Stay,
                }
            }),
    {
        if key.code == KeyCode::Char('c') && key.modifiers.control {
            return LoopStep::Exit(String::new());
        }
        let before = chars_of(self.input.as_str());
        let action = self.handle_key(key);
        match action {
            Action::Quit => LoopStep::Exit(String::new()),
            Action::Insert(t) => LoopStep::Exit(shell_output("insert", t.as_str())),
            Action::Rerun(t) => LoopStep::Exit(shell_output("rerun", t.as_str())),
            Action::Copy(t) => LoopStep::Copy(t),
            Action::Continue => {
                let after = chars_of(self.input.as_str());
                if crate::text::chars_eq(before.as_slice(), after.as_slice()) {
                    LoopStep::Stay
                } else {
                    self.error = None;
                    LoopStep::Refresh
                }
            },
        }
    }

    /// The search the results pane needs: recent commands for an empty query,
    /// otherwise a fuzzy search for it.
    pub fn refresh_request(&self) -> (res: RefreshRequest)
        ensures
            self.input@.len() == 0 ==> res == RefreshRequest::Recent(RECENT_LIMIT),
            self.input@.len() > 0 ==> (res matches RefreshRequest::Fuzzy(q, l) && q@ == self.input@
                && l == RESULT_LIMIT),
    {
        if chars_of(self.input.as_str()).len() == 0 {
            RefreshRequest::Recent(RECENT_LIMIT)
        } else {
            RefreshRequest::Fuzzy(self.input.clone(), RESULT_LIMIT)
        }
    }

    /// Takes in the outcome of a search: new results, or the error shown in
    /// place of them.
    pub fn apply_refresh(&mut self, outcome: Result<Vec<CollapsedRecord>, String>)
        ensures
            old(self).wf() ==> final(self).wf(),
            outcome is Ok ==> final(self).wf(),
            final(self).input@ == old(self).input@,
            ov(final(self).status) == ov(old(self).status),
            outcome matches Ok(v) ==> final(self).results@ == v@ && final(self).selected == (
            if old(self).selected >= v@.len() {
                if v@.len() == 0 {
                    0
                } else {
                    (v@.len() - 1) as usize
                }
            } else {
                old(self).selected
            }) && ov(final(self).error) == ov(old(self).error),
            outcome matches Err(e) ==> final(self).results@ == old(self).results@
                && final(self).selected == old(self).selected && ov(final(self).error) == Some(
                "Search error: "@ + e@,
            ),
    {
        match outcome {
            Ok(v) => self.set_results(v),
            Err(e) => {
                let mut m = String::from_str("Search error: ");
                append_str(&mut m, e.as_str());
                self.error = Some(m);
            },
        }
    }

    /// Reports how copying went: success, or why it was unavailable.
    pub fn record_copy(&mut self, failure: Option<String>)
        ensures
            final(self).results@ == old(self).results@,
            final(self).selected == old(self).selected,
            final(self).input@ == old(self).input@,
            failure is None ==> ov(final(self).status) == Some("Copied raw command to clipboard."@),
            failure matches Some(e) ==> ov(final(self).status) == Some("Copy unavailable: "@ + e@),
    {
        match failure {
            None => {
                self.status = Some(String::from_str("Copied raw command to clipboard."));
            },
            Some(e) => {
                let mut m = String::from_str("Copy unavailable: ");
                append_str(&mut m, e.as_str());
                self.status = Some(m);
            },
        }
    }

    /// The title of the results pane.
    pub fn results_title(&self) -> (res: String)
        ensures
            res@ == if self.input@.len() == 0 {
                "Recent commands ("@ + nat_decimal(self.results@.len()) + ") — type to search"@
            } else {
                "Results ("@ + nat_decimal(self.results@.len()) + ")"@
            },
    {
        let n = u64_decimal(self.results.len() as u64);
        let mut v: Vec<char>;
        if chars_of(self.input.as_str()).len() == 0 {
            v = chars_of("Recent commands (");
            append_chars(&mut v, n.as_slice());
            append_chars(&mut v, chars_of(") — type to search").as_slice());
        } else {
            v = chars_of("Results (");
            append_chars(&mut v, n.as_slice());
            append_chars(&mut v, chars_of(")").as_slice());
        }
        string_from_chars(v.as_slice())
    }

    /// The text of the results pane when there are no results.
    pub fn placeholder(&self) -> (res: &'static str)
        ensures
            res@ == if self.input@.len() == 0 {
                "No command history yet — type to search after running commands."@
            } else {
                "No matching commands."@
            },
    {
        if chars_of(self.input.as_str()).len() == 0 {
            "No command history yet — type to search after running commands."
        } else {
            "No matching commands."
        }
    }

    /// The row of result `i`: a marker and the raw command, then the repeat
    /// count when there is more than one run.
    pub fn result_row(&self, i: usize) -> (res: (String, String))
        requires
            i < self.results@.len(),
        ensures
            res.0@ == (if i == self.selected {
                "> "@
            } else {
                "  "@
            }) + self.results@[i as int].command_text@,
            res.1@ == if self.results@[i as int].repeat_count > 1 {
                "  (x"@ + nat_decimal(self.results@[i as int].repeat_count as nat) + ")"@
            } else {
                Seq::<char>::empty()
            },
    {
        let r = &self.results[i];
        let mut line = if i == self.selected {
            chars_of("> ")
        } else {
            chars_of("  ")
        };
        append_chars(&mut line, chars_of(r.command_text.as_str()).as_slice());
        let repeat = if r.repeat_count > 1 {
            let mut v = chars_of("  (x");
            append_chars(&mut v, u64_decimal(r.repeat_count as u64).as_slice());
            append_chars(&mut v, chars_of(")").as_slice());
            v
        } else {
            Vec::new()
        };
        (string_from_chars(line.as_slice()), string_from_chars(repeat.as_slice()))
    }

    /// The context line of the selected result's preview.
    pub fn preview_context(&self, now: i64) -> (res: Option<String>)
        ensures
            res is Some <==> self.selected < self.results@.len(),
            res matches Some(s) ==> s@ == context_text(self.results@[self.selected as int]@, now),
    {
        if self.selected < self.results.len() {
            let v = render_context(&self.results[self.selected], now);
            Some(string_from_chars(v.as_slice()))
        } else {
            None
        }
    }
}

} // verus!
