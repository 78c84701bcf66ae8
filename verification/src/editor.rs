//! The editor session: the open tabs, the selected one, the mode and the
//! prompt line, and the decision taken on each key or paste. The caller runs
//! the event loop; it performs the file reads and writes that a step asks
//! for and hands their outcome back.
use vstd::prelude::*;

use crate::controls::Key;
use crate::document::split_text;
use crate::guards::{insert_key_ok, normal_key_ok, paste_ok, select_key_ok, select_line_key_ok};
use crate::helpers::{fresh_tab, lines_of, Effect, Tab, TabView, Visual};
use crate::modes::{
    after_paste, finish_open, finish_save, finish_write, insert_mode, insert_next, insert_paste,
    insert_safe, open_mode, opened, paste_safe, prompt_line, save_mode, unsaved_work_mode,
};
use crate::normal_mode::{
    is_tab_key, normal_mode, normal_next, normal_safe, INSERT, NORMAL, OPEN_FAILED, OPEN_PROMPT, SAVE_FAILED,
    SAVE_PROMPT, SELECT, SELECT_LINE, UNSAVED_PROMPT,
};
use crate::select_modes::{
    keeps_or_clears, lemma_indent_rows_redo, lemma_removed_rows_redo, lemma_unindent_rows_redo,
    select_char_next, select_char_safe, select_line_next, select_line_safe, select_mode1,
    select_mode_line,
};
use crate::text::push_text;

verus! {

/// The state of a running editor.
pub struct Session {
    pub tabs: Vec<Tab>,
    pub tab_selector: usize,
    pub vis: Visual,
    pub mode: i32,
    pub the_command_line: String,
    pub filled_now: String,
}

/// A session seen as values.
pub struct SessionView {
    pub tabs: Seq<TabView>,
    pub sel: int,
    pub vis: Visual,
    pub mode: i32,
    pub cmd: Seq<char>,
    pub filled: Seq<char>,
}

impl View for Session {
    type V = SessionView;

    open spec fn view(&self) -> SessionView {
        SessionView {
            tabs: self.tabs@.map_values(|t: Tab| t@),
            sel: self.tab_selector as int,
            vis: self.vis,
            mode: self.mode,
            cmd: self.the_command_line@,
            filled: self.filled_now@,
        }
    }
}

/// What the event loop does after a step.
#[derive(Clone, Copy, Debug, PartialEq, Eq, Structural)]
pub enum Action {
    /// Draw and wait for the next event.
    Continue,
    /// Leave the editor.
    Quit,
    /// Write the selected tab to its file, then call `after_write`.
    WriteTab,
    /// Write the selected tab to the file just named, then call
    /// `after_save_as`.
    WriteAs,
    /// Read the file named on the command line, then call `after_open`.
    ReadFile,
    /// Wait for one more event, then call `dismiss`.
    AwaitKey,
}

impl SessionView {
    /// At least one tab is open and one of them is selected.
    pub open spec fn wf(self) -> bool {
        &&& self.tabs.len() >= 1
        &&& 0 <= self.sel < self.tabs.len()
    }

    /// The selected tab.
    pub open spec fn current(self) -> TabView {
        self.tabs[self.sel]
    }

    /// The session with the selected tab replaced.
    pub open spec fn with_current(self, t: TabView) -> SessionView {
        SessionView { tabs: self.tabs.update(self.sel, t), ..self }
    }
}

/// Closing the selected tab: with other tabs open it goes and Normal mode
/// resumes (the selection steps back when it stood at or next to the end);
/// closing the only tab quits.
pub open spec fn closing(s: SessionView) -> (SessionView, Action) {
    if s.tabs.len() > 1 {
        let tabs = s.tabs.remove(s.sel);
        (
            SessionView {
                tabs,
                sel: if s.sel > 0 && s.sel >= tabs.len() - 1 {
                    s.sel - 1
                } else {
                    s.sel
                },
                mode: NORMAL,
                ..s
            },
            Action::Continue,
        )
    } else {
        (s, Action::Quit)
    }
}

/// Where a key leaves the session, and what the event loop does next.
pub open spec fn key_next(s: SessionView, key: Key) -> (SessionView, Action) {
    let t = s.current();
    let n = s.tabs.len();
    if s.mode == NORMAL {
        if key == Key::Char('N') {
            (SessionView { tabs: s.tabs.push(fresh_tab()), sel: n as int, ..s }, Action::Continue)
        } else if key is Tab || key == Key::Char('n') {
            (SessionView { sel: if s.sel < n - 1 { s.sel + 1 } else { 0 }, ..s }, Action::Continue)
        } else if key is BackTab {
            (SessionView { sel: if s.sel > 0 { s.sel - 1 } else { n - 1 }, ..s }, Action::Continue)
        } else {
            let (t2, v2, m2, c2, e) = normal_next(key, t, s.vis, s.mode, s.cmd);
            let s2 = SessionView { vis: v2, mode: m2, cmd: c2, ..s.with_current(t2) };
            if e == Effect::Stop {
                closing(s2)
            } else if e == Effect::WriteFile {
                (s2, Action::WriteTab)
            } else {
                (s2, Action::Continue)
            }
        }
    } else if s.mode == INSERT {
        let (t2, m2, f2, _stay) = insert_next(key, t, s.mode, s.filled);
        (SessionView { mode: m2, filled: f2, ..s.with_current(t2) }, Action::Continue)
    } else if s.mode == SELECT {
        let (t2, m2, stay) = select_char_next(key, t, s.vis, s.mode);
        (
            SessionView { mode: if stay { m2 } else { NORMAL }, ..s.with_current(t2) },
            Action::Continue,
        )
    } else if s.mode == SELECT_LINE {
        let (t2, v2, m2, stay) = select_line_next(key, t, s.vis, s.mode);
        (
            SessionView { vis: v2, mode: if stay { m2 } else { NORMAL }, ..s.with_current(t2) },
            Action::Continue,
        )
    } else if s.mode == SAVE_PROMPT {
        let t2 = if key is Enter {
            TabView { file_name: s.cmd, ..t }
        } else {
            t
        };
        (
            SessionView {
                cmd: prompt_line(key, s.cmd),
                mode: if key is Esc { NORMAL } else { s.mode },
                ..s.with_current(t2)
            },
            if key is Enter { Action::WriteAs } else { Action::Continue },
        )
    } else if s.mode == OPEN_PROMPT {
        (
            SessionView {
                cmd: prompt_line(key, s.cmd),
                mode: if key is Esc { NORMAL } else { s.mode },
                ..s
            },
            if key is Enter { Action::ReadFile } else { Action::Continue },
        )
    } else if s.mode == UNSAVED_PROMPT {
        if key == Key::Char('y') {
            closing(s)
        } else {
            (SessionView { mode: NORMAL, ..s }, Action::Continue)
        }
    } else {
        (s, Action::AwaitKey)
    }
}

/// Whether `key` acts on the list of tabs rather than on the selected tab.
pub fn is_tab_key_exec(key: Key) -> (b: bool)
    ensures
        b == is_tab_key(key),
{
    match key {
        Key::Char('N') | Key::Tab | Key::Char('n') | Key::BackTab => true,
        _ => false,
    }
}

/// The key stays within the bounds that the handler of the current mode
/// asks for.
pub open spec fn key_safe(s: SessionView, key: Key) -> bool {
    let t = s.current();
    if s.mode == NORMAL {
        is_tab_key(key) || normal_safe(key, t)
    } else if s.mode == INSERT {
        insert_safe(key, t, s.filled)
    } else if s.mode == SELECT {
        select_char_safe(key, t, s.vis)
    } else if s.mode == SELECT_LINE {
        select_line_safe(key, t, s.vis)
    } else {
        true
    }
}

/// Where a paste leaves the session: Insert mode pastes into the selected
/// tab, the prompts append the text to the command line.
pub open spec fn paste_next(s: SessionView, text: Seq<char>) -> SessionView {
    if s.mode == INSERT {
        s.with_current(after_paste(s.current(), text))
    } else if s.mode == SAVE_PROMPT || s.mode == OPEN_PROMPT {
        SessionView { cmd: s.cmd + text, ..s }
    } else {
        s
    }
}

/// A paste stays within bounds.
pub open spec fn paste_fits(s: SessionView, text: Seq<char>) -> bool {
    s.mode == INSERT ==> paste_safe(s.current(), text)
}

impl Session {
    /// A session with one tab: a fresh one when no file was named, else the
    /// named file's lines when it could be read (`content`), or one empty
    /// line bound to that name.
    pub fn start(name: Option<String>, content: Option<String>) -> (s: Self)
        ensures
            s@.wf(),
            s@.sel == 0,
            s@.mode == NORMAL,
            s@.cmd == Seq::<char>::empty(),
            s@.filled == Seq::<char>::empty(),
            s.vis == (Visual { v_x: 0, v_y: 0, on: false }),
            s@.tabs == seq![
                match name {
                    None => fresh_tab(),
                    Some(n) => opened(
                        fresh_tab(),
                        n@,
                        match content {
                            Some(c) => Some(c@),
                            None => None,
                        },
                    ),
                },
            ],
    {
        let mut tab = Tab::new();
        match name {
            None => {},
            Some(n) => {
                match content {
                    Some(c) => {
                        tab.input_box = split_text(c.as_str());
                    },
                    None => {
                        tab.input_box = vec![String::new()];
                    },
                }
                tab.file_name = n;
                proof {
                    if content is None {
                        assert(tab@.text =~= seq![Seq::<char>::empty()]);
                    }
                }
            },
        }
        let mut tabs = Vec::new();
        tabs.push(tab);
        let s = Session {
            tabs,
            tab_selector: 0,
            vis: Visual::new(),
            mode: NORMAL,
            the_command_line: String::new(),
            filled_now: String::new(),
        };
        proof {
            assert(s@.tabs =~= seq![tab@]);
        }
        s
    }

    /// The selected tab.
    pub fn current(&self) -> (t: &Tab)
        requires
            self@.wf(),
        ensures
            t@ == self@.current(),
    {
        &self.tabs[self.tab_selector]
    }

    /// Closes the selected tab, as `closing` says.
    fn close_current(&mut self) -> (a: Action)
        requires
            old(self)@.wf(),
        ensures
            (final(self)@, a) == closing(old(self)@),
    {
        let ghost s = self@;
        if self.tabs.len() > 1 {
            self.tabs.remove(self.tab_selector);
            if self.tab_selector > 0 && self.tab_selector >= self.tabs.len() - 1 {
                self.tab_selector = self.tab_selector - 1;
            }
            self.mode = NORMAL;
            proof {
                assert(self@.tabs =~= s.tabs.remove(s.sel));
            }
            Action::Continue
        } else {
            Action::Quit
        }
    }

    /// Handles a key and says what the event loop does next.
    pub fn handle_key(&mut self, key: Key) -> (a: Action)
        requires
            old(self)@.wf(),
            key_safe(old(self)@, key),
        ensures
            (final(self)@, a) == key_next(old(self)@, key),
            final(self)@.wf(),
            known_mode(old(self)@.mode) ==> known_mode(final(self)@.mode),
    {
        proof {
            law_step_keeps_session(self@, key);
            if known_mode(self@.mode) {
                law_mode_stays_known(self@, key, Seq::empty());
            }
        }
        let ghost s = self@;
        let sel = self.tab_selector;
        proof {
            assert(self.tabs@[sel as int]@ == s.current());
        }
        if self.mode == NORMAL {
            let mut text = self.tabs[sel].input_box.clone();
            proof {
                assert(lines_of(text@) =~= s.current().text);
            }
            let e = normal_mode(
                &mut self.tabs,
                &mut self.tab_selector,
                &mut self.vis,
                key,
                &mut self.mode,
                &mut self.the_command_line,
                &mut text,
            );
            if key == Key::Char('N') {
                proof {
                    assert(self@.tabs =~= s.tabs.push(fresh_tab()));
                }
                return Action::Continue;
            }
            if is_tab_key_exec(key) {
                return Action::Continue;
            }
            let ghost t2 = self.tabs@[sel as int]@;
            proof {
                assert(self@.tabs =~= s.tabs.update(s.sel, t2));
            }
            match e {
                Effect::Stop => self.close_current(),
                Effect::WriteFile => Action::WriteTab,
                _ => Action::Continue,
            }
        } else if self.mode == INSERT {
            let mut text = self.tabs[sel].input_box.clone();
            proof {
                assert(lines_of(text@) =~= s.current().text);
            }
            insert_mode(&mut self.tabs[sel], key, &mut self.mode, &mut text, &mut self.filled_now);
            proof {
                assert(self@.tabs =~= s.tabs.update(s.sel, self.tabs@[sel as int]@));
            }
            Action::Continue
        } else if self.mode == SELECT {
            let stay = select_mode1(&mut self.tabs[sel], &mut self.vis, key, &mut self.mode);
            if !stay {
                self.mode = NORMAL;
            }
            proof {
                assert(self@.tabs =~= s.tabs.update(s.sel, self.tabs@[sel as int]@));
            }
            Action::Continue
        } else if self.mode == SELECT_LINE {
            let stay = select_mode_line(&mut self.tabs[sel], &mut self.vis, key, &mut self.mode);
            if !stay {
                self.mode = NORMAL;
            }
            proof {
                assert(self@.tabs =~= s.tabs.update(s.sel, self.tabs@[sel as int]@));
            }
            Action::Continue
        } else if self.mode == SAVE_PROMPT {
            let e = save_mode(&mut self.tabs[sel], key, &mut self.the_command_line, &mut self.mode);
            proof {
                assert(self@.tabs =~= s.tabs.update(s.sel, self.tabs@[sel as int]@));
            }
            match e {
                Effect::WriteFile => Action::WriteAs,
                _ => Action::Continue,
            }
        } else if self.mode == OPEN_PROMPT {
            let e = open_mode(&mut self.tabs[sel], key, &mut self.the_command_line, &mut self.mode);
            proof {
                assert(self@.tabs =~= s.tabs);
            }
            match e {
                Effect::ReadFile => Action::ReadFile,
                _ => Action::Continue,
            }
        } else if self.mode == UNSAVED_PROMPT {
            if unsaved_work_mode(key, &mut self.mode) {
                Action::Continue
            } else {
                self.close_current()
            }
        } else {
            Action::AwaitKey
        }
    }

    /// Handles pasted text.
    pub fn handle_paste(&mut self, text: &str)
        requires
            old(self)@.wf(),
            paste_fits(old(self)@, text@),
        ensures
            final(self)@ == paste_next(old(self)@, text@),
            final(self)@.wf(),
            known_mode(old(self)@.mode) ==> known_mode(final(self)@.mode),
    {
        let ghost s = self@;
        let sel = self.tab_selector;
        if self.mode == INSERT {
            insert_paste(&mut self.tabs[sel], text);
            proof {
                assert(self@.tabs =~= s.tabs.update(s.sel, self.tabs@[sel as int]@));
            }
        } else if self.mode == SAVE_PROMPT || self.mode == OPEN_PROMPT {
            push_text(&mut self.the_command_line, text);
        }
    }

    /// Finishes `WriteTab` once the write was tried: the tab counts as saved
    /// when it succeeded, else the mode reports the failure.
    pub fn after_write(&mut self, written: bool)
        requires
            old(self)@.wf(),
        ensures
            final(self)@ == (SessionView {
                mode: if written { old(self)@.mode } else { SAVE_FAILED },
                ..old(self)@.with_current(
                    if written {
                        TabView { saved: true, ..old(self)@.current() }
                    } else {
                        old(self)@.current()
                    },
                )
            }),
            final(self)@.wf() <== old(self)@.wf(),
            known_mode(final(self)@.mode) <== known_mode(old(self)@.mode),
    {
        let ghost s = self@;
        let sel = self.tab_selector;
        finish_write(&mut self.tabs[sel], written);
        if !written {
            self.mode = SAVE_FAILED;
        }
        proof {
            assert(self@.tabs =~= s.tabs.update(s.sel, self.tabs@[sel as int]@));
        }
    }

    /// Finishes `WriteAs` once the write was tried: the tab counts as saved
    /// and Normal mode resumes when it succeeded, else the mode reports the
    /// failure.
    pub fn after_save_as(&mut self, written: bool)
        requires
            old(self)@.wf(),
        ensures
            final(self)@ == (SessionView {
                mode: if written { NORMAL } else { SAVE_FAILED },
                ..old(self)@.with_current(
                    if written {
                        TabView { saved: true, ..old(self)@.current() }
                    } else {
                        old(self)@.current()
                    },
                )
            }),
            final(self)@.wf() <== old(self)@.wf(),
            known_mode(final(self)@.mode) <== known_mode(old(self)@.mode),
    {
        let ghost s = self@;
        let sel = self.tab_selector;
        let e = finish_save(&mut self.tabs[sel], written, &mut self.mode);
        if e == Effect::Stop {
            self.mode = SAVE_FAILED;
        }
        proof {
            assert(self@.tabs =~= s.tabs.update(s.sel, self.tabs@[sel as int]@));
        }
    }

    /// Finishes `ReadFile` with the file's contents, or `None` when it could
    /// not be read.
    pub fn after_open(&mut self, content: Option<String>)
        requires
            old(self)@.wf(),
        ensures
            final(self)@ == (SessionView {
                cmd: Seq::empty(),
                mode: if content is Some { NORMAL } else { OPEN_FAILED },
                ..old(self)@.with_current(
                    opened(
                        old(self)@.current(),
                        old(self)@.cmd,
                        match content {
                            Some(c) => Some(c@),
                            None => None,
                        },
                    ),
                )
            }),
            final(self)@.wf() <== old(self)@.wf(),
            known_mode(final(self)@.mode) <== known_mode(old(self)@.mode),
    {
        let ghost s = self@;
        let sel = self.tab_selector;
        finish_open(&mut self.tabs[sel], content, &mut self.the_command_line, &mut self.mode);
        proof {
            assert(self@.tabs =~= s.tabs.update(s.sel, self.tabs@[sel as int]@));
        }
    }

    /// Finishes `AwaitKey`: a key press clears the command line and goes
    /// back to Normal mode; any other event changes nothing.
    pub fn dismiss(&mut self, pressed: bool)
        ensures
            final(self)@ == if pressed {
                SessionView { cmd: Seq::empty(), mode: NORMAL, ..old(self)@ }
            } else {
                old(self)@
            },
            final(self)@.wf() <== old(self)@.wf(),
            known_mode(final(self)@.mode) <== known_mode(old(self)@.mode),
    {
        if pressed {
            self.the_command_line = String::new();
            self.mode = NORMAL;
        }
    }

    /// Whether `key` stays within the bounds that its handler asks for.
    pub fn key_ok(&self, key: Key) -> (b: bool)
        requires
            self@.wf(),
        ensures
            b == key_safe(self@, key),
    {
        let t = &self.tabs[self.tab_selector];
        if self.mode == NORMAL {
            match key {
                Key::Char('N') | Key::Tab | Key::Char('n') | Key::BackTab => true,
                _ => normal_key_ok(t, key),
            }
        } else if self.mode == INSERT {
            insert_key_ok(t, key, &self.filled_now)
        } else if self.mode == SELECT {
            select_key_ok(t, &self.vis, key)
        } else if self.mode == SELECT_LINE {
            select_line_key_ok(t, &self.vis, key)
        } else {
            true
        }
    }

    /// Whether pasting `text` stays within bounds.
    pub fn paste_fits(&self, text: &str) -> (b: bool)
        requires
            self@.wf(),
        ensures
            b == paste_fits(self@, text@),
    {
        if self.mode == INSERT {
            paste_ok(&self.tabs[self.tab_selector], text)
        } else {
            true
        }
    }
}

/// Every step keeps a tab open and one selected.
pub proof fn law_step_keeps_session(s: SessionView, key: Key)
    requires
        s.wf(),
    ensures
        key_next(s, key).0.wf(),
{
}

/// Tab then Shift+Tab, in Normal mode, comes back to the same session.
pub proof fn law_next_then_previous_tab(s: SessionView)
    requires
        s.wf(),
        s.mode == NORMAL,
    ensures
        key_next(key_next(s, Key::Tab).0, Key::BackTab).0 == s,
        key_next(key_next(s, Key::BackTab).0, Key::Tab).0 == s,
{
}

/// `N` opens a fresh tab after the others and selects it.
pub proof fn law_new_tab_selected(s: SessionView)
    requires
        s.wf(),
        s.mode == NORMAL,
    ensures
        key_next(s, Key::Char('N')).0.wf(),
        key_next(s, Key::Char('N')).0.current() == fresh_tab(),
        key_next(s, Key::Char('N')).0.tabs.take(s.tabs.len() as int) == s.tabs,
{
    assert(s.tabs.push(fresh_tab()).take(s.tabs.len() as int) =~= s.tabs);
}

/// Closing the only tab quits: `q` on a saved tab, or `y` at the
/// quit-anyway prompt.
pub proof fn law_closing_last_tab_quits(s: SessionView)
    requires
        s.wf(),
        s.tabs.len() == 1,
    ensures
        s.mode == NORMAL && s.current().saved ==> key_next(s, Key::Char('q')).1 == Action::Quit,
        s.mode == UNSAVED_PROMPT ==> key_next(s, Key::Char('y')).1 == Action::Quit,
{
}

/// An edit that is recorded for undo empties the redo stack: after any key
/// but `u` and `r` in Normal mode, the selected tab keeps both of its
/// stacks or has an empty redo stack.
#[verifier::rlimit(60)]
pub proof fn law_recorded_edit_clears_redo(s: SessionView, key: Key)
    requires
        s.wf(),
        !(s.mode == NORMAL && (key == Key::Char('u') || key == Key::Char('r'))),
    ensures
        ({
            let s2 = key_next(s, key).0;
            s2.tabs.len() == s.tabs.len() && s2.sel == s.sel ==> keeps_or_clears(
                s.current(),
                s2.current(),
            )
        }),
{
    let t = s.current();
    let y = t.cursor_y;
    let v = s.vis.v_y as int;
    let lo = if y > v { v } else { y };
    let hi = if y > v { y } else { v };
    let u = TabView { saved: false, ..t };
    lemma_indent_rows_redo(u, lo, hi);
    lemma_unindent_rows_redo(u, lo, hi);
    lemma_removed_rows_redo(u, lo, hi - lo + 1);
}
/// The modes the editor knows: Normal, Insert, Select, Select-Line, the two
/// prompts, the two failure reports and the quit-anyway prompt.
pub open spec fn known_mode(mode: i32) -> bool {
    mode == NORMAL || mode == INSERT || mode == SELECT || mode == SELECT_LINE || mode
        == SAVE_PROMPT || mode == OPEN_PROMPT || mode == OPEN_FAILED || mode == SAVE_FAILED || mode
        == UNSAVED_PROMPT
}

/// Every key and every paste leaves the editor in one of its known modes.
pub proof fn law_mode_stays_known(s: SessionView, key: Key, text: Seq<char>)
    requires
        s.wf(),
        known_mode(s.mode),
    ensures
        known_mode(key_next(s, key).0.mode),
        known_mode(paste_next(s, text).mode),
{
    let t = s.current();
    if s.mode == NORMAL {
        lemma_normal_mode_known(key, t, s.vis, s.mode, s.cmd);
    } else if s.mode == INSERT {
        assert(known_mode(insert_next(key, t, s.mode, s.filled).1));
    } else if s.mode == SELECT {
        assert(known_mode(select_char_next(key, t, s.vis, s.mode).1));
    } else if s.mode == SELECT_LINE {
        assert(known_mode(select_line_next(key, t, s.vis, s.mode).2));
    }
}

/// Normal mode moves only to known modes.
proof fn lemma_normal_mode_known(key: Key, t: TabView, vis: Visual, mode: i32, cmd: Seq<char>)
    requires
        known_mode(mode),
    ensures
        known_mode(normal_next(key, t, vis, mode, cmd).2),
{
}

/// In either prompt, Save or Open, a paste appends the pasted text to the
/// command line and changes nothing else; two pastes in a row append both
/// texts in order, as one paste of both would.
pub proof fn law_prompt_paste_appends(s: SessionView, a: Seq<char>, b: Seq<char>)
    requires
        s.mode == SAVE_PROMPT || s.mode == OPEN_PROMPT,
    ensures
        paste_next(s, a).cmd == s.cmd + a,
        paste_next(s, a).cmd.take(s.cmd.len() as int) == s.cmd,
        paste_next(s, a).cmd.skip(s.cmd.len() as int) == a,
        paste_next(s, a).tabs == s.tabs,
        paste_next(s, a).sel == s.sel,
        paste_next(s, a).mode == s.mode,
        paste_next(paste_next(s, a), b) == paste_next(s, a + b),
{
    assert((s.cmd + a).take(s.cmd.len() as int) =~= s.cmd);
    assert((s.cmd + a).skip(s.cmd.len() as int) =~= a);
    assert(s.cmd + a + b =~= s.cmd + (a + b));
}
} // verus!
