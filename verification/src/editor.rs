//! The raw-mode line editor as a state machine over keystrokes.
//!
//! The editor owns the edit buffer, the consecutive-Tab counter, and the
//! model of the terminal's raw/cooked flag. Each keystroke is one `step`;
//! the returned action tells the surrounding read loop what to perform
//! (echo, erase, run the line, complete, terminate). Every transition that
//! leaves the read loop — submitting a line, an interrupt, ending the
//! session — puts the terminal model back in cooked mode, so no exit path
//! can leave the terminal raw.

use vstd::prelude::*;
use crate::strutil::string_of_chars;

verus! {

/// How a keystroke is classed.
#[derive(Clone, Copy, PartialEq, Eq, Structural)]
pub enum KeyClass {
    /// Carriage return or line feed: submit the line.
    Enter,
    /// Horizontal tab: completion.
    Tab,
    /// Delete (0x7f): erase the last character.
    Backspace,
    /// End-of-text (0x03), the interrupt key: terminate.
    Interrupt,
    /// Anything else: appended and echoed.
    Other,
}

/// The class of one input character.
pub open spec fn spec_key_class(c: char) -> KeyClass {
    if c == '\r' || c == '\n' {
        KeyClass::Enter
    } else if c == '\t' {
        KeyClass::Tab
    } else if c == '\u{7f}' {
        KeyClass::Backspace
    } else if c == '\u{3}' {
        KeyClass::Interrupt
    } else {
        KeyClass::Other
    }
}

/// What the read loop must perform after one keystroke.
pub enum EditorAction {
    /// The character was appended: echo it.
    Echoed(char),
    /// The last character was removed: erase it on screen.
    Erased,
    /// Nothing changed.
    Ignored,
    /// Enter: execute this line (it may be empty), then begin a fresh one.
    Submitted(String),
    /// Tab: invoke completion with the current buffer and this consecutive
    /// press count (capped at two; behaviour only distinguishes one press
    /// from more).
    Complete { count: usize },
    /// Interrupt: the process exits now.
    Terminated,
}

/// The line editor's state. `raw_mode` models the terminal's process-wide
/// raw/cooked flag: true exactly while the editor is collecting keystrokes.
pub struct LineEditor {
    pub buffer: Vec<char>,
    pub tab_count: usize,
    pub raw_mode: bool,
}

/// The keystroke transition: how the editor state after one key and the
/// returned action relate to the state before it.
pub open spec fn spec_step_ok(pre: LineEditor, post: LineEditor, c: char, a: EditorAction) -> bool {
    match spec_key_class(c) {
        KeyClass::Enter => {
            &&& a matches EditorAction::Submitted(line) && line@ == pre.buffer@
            &&& post.buffer@ == Seq::<char>::empty()
            &&& post.tab_count == 0
            &&& !post.raw_mode
        },
        KeyClass::Tab => {
            &&& a matches EditorAction::Complete { count } && count == post.tab_count
            &&& post.tab_count == (if pre.tab_count == 0 { 1int } else { 2int })
            &&& post.buffer@ == pre.buffer@
            &&& post.raw_mode
        },
        KeyClass::Backspace => {
            &&& post.tab_count == 0
            &&& post.raw_mode
            &&& if pre.buffer@.len() > 0 {
                a is Erased && post.buffer@ == pre.buffer@.drop_last()
            } else {
                a is Ignored && post.buffer@ == pre.buffer@
            }
        },
        KeyClass::Interrupt => a is Terminated && !post.raw_mode,
        KeyClass::Other => {
            &&& a matches EditorAction::Echoed(e) && e == c
            &&& post.buffer@ == pre.buffer@.push(c)
            &&& post.tab_count == 0
            &&& post.raw_mode
        },
    }
}

/// The interrupt key terminates and never leaves the terminal raw: every
/// keystroke transition whose action exits the process ends in cooked mode.
pub proof fn interrupt_always_cooked(pre: LineEditor, post: LineEditor, c: char, a: EditorAction)
    requires
        spec_step_ok(pre, post, c, a),
        a is Terminated,
    ensures
        !post.raw_mode,
{
}

impl LineEditor {
    /// A fresh editor, before any line: terminal still cooked.
    pub fn new() -> (r: LineEditor)
        ensures
            r.buffer@ == Seq::<char>::empty(),
            r.tab_count == 0,
            !r.raw_mode,
    {
        LineEditor { buffer: Vec::new(), tab_count: 0, raw_mode: false }
    }

    /// Enters a fresh input cycle: empty buffer, tab state reset, terminal
    /// set raw. The caller performs the actual mode switch and prompt.
    pub fn begin_line(&mut self)
        ensures
            final(self).buffer@ == Seq::<char>::empty(),
            final(self).tab_count == 0,
            final(self).raw_mode,
    {
        self.buffer = Vec::new();
        self.tab_count = 0;
        self.raw_mode = true;
    }

    /// Leaves the read loop for good (the `exit` builtin): terminal cooked.
    pub fn end_session(&mut self)
        ensures
            !final(self).raw_mode,
    {
        self.raw_mode = false;
    }

    /// One keystroke. Any key other than Tab resets the consecutive-Tab
    /// counter. Enter hands the line out and leaves the terminal cooked for
    /// its execution; an interrupt leaves it cooked for the process exit.
    pub fn step(&mut self, c: char) -> (a: EditorAction)
        requires
            old(self).raw_mode,
        ensures
            spec_step_ok(*old(self), *final(self), c, a),
    {
        if c == '\r' || c == '\n' {
            let line = string_of_chars(&self.buffer);
            self.buffer = Vec::new();
            self.tab_count = 0;
            self.raw_mode = false;
            EditorAction::Submitted(line)
        } else if c == '\t' {
            let count: usize = if self.tab_count == 0 {
                1
            } else {
                2
            };
            self.tab_count = count;
            EditorAction::Complete { count }
        } else if c == '\u{7f}' {
            self.tab_count = 0;
            if self.buffer.len() > 0 {
                let _ = self.buffer.pop();
                EditorAction::Erased
            } else {
                EditorAction::Ignored
            }
        } else if c == '\u{3}' {
            self.raw_mode = false;
            EditorAction::Terminated
        } else {
            self.tab_count = 0;
            self.buffer.push(c);
            EditorAction::Echoed(c)
        }
    }

    /// Applies a completion's buffer extension: the given text is appended
    /// as if typed, and must be echoed by the caller.
    pub fn extend_buffer(&mut self, text: &str)
        ensures
            final(self).buffer@ == old(self).buffer@ + text@,
            final(self).tab_count == old(self).tab_count,
            final(self).raw_mode == old(self).raw_mode,
    {
        let len = text.unicode_len();
        let mut i: usize = 0;
        while i < len
            invariant
                i <= len,
                len == text@.len(),
                self.buffer@ == old(self).buffer@ + text@.take(i as int),
                self.tab_count == old(self).tab_count,
                self.raw_mode == old(self).raw_mode,
            decreases len - i,
        {
            self.buffer.push(text.get_char(i));
            proof {
                assert(old(self).buffer@ + text@.take(i + 1) =~= (old(self).buffer@ + text@.take(
                    i as int,
                )).push(text@[i as int]));
            }
            i = i + 1;
        }
        proof {
            assert(old(self).buffer@ + text@.take(len as int) =~= old(self).buffer@ + text@);
        }
    }

    /// The buffer as a string, for completion queries.
    pub fn buffer_text(&self) -> (r: String)
        ensures
            r@ == self.buffer@,
    {
        string_of_chars(&self.buffer)
    }
}

} // verus!
